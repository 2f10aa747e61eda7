use vstd::prelude::*;

verus! {

/// Relies on `std::path::Path::exists`: whether something is at `path` now.
/// The answer depends on the disk (and is `false` where the lookup itself
/// fails), so nothing is stated of it.
#[verifier::external_body]
pub(crate) fn path_exists(path: &str) -> (r: bool) {
    std::path::Path::new(path).exists()
}

} // verus!
