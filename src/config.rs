use vstd::prelude::*;

verus! {

#[verifier::external_type_specification]
#[verifier::external_body]
pub struct ExFontConfig(fontconfig_parser::FontConfig);

#[verifier::external_type_specification]
#[verifier::external_body]
pub struct ExParseError(fontconfig_parser::Error);

/// The directory entries of a merged configuration, in the parser's order:
/// each one's path text, or `None` where the path is not valid UTF-8.
pub uninterp spec fn dir_entries(c: fontconfig_parser::FontConfig) -> Seq<Option<Seq<char>>>;

/// Every entry has its path as text.
pub open spec fn all_text(entries: Seq<Option<Seq<char>>>) -> bool {
    forall|i: int| 0 <= i < entries.len() ==> (#[trigger] entries[i]) is Some
}

/// `paths` holds, in order, the text of each entry.
pub open spec fn entries_text(entries: Seq<Option<Seq<char>>>, paths: Seq<String>) -> bool {
    &&& paths.len() == entries.len()
    &&& forall|i: int| 0 <= i < paths.len() ==> entries[i] == Some((#[trigger] paths[i])@)
}

/// Relies on `FontConfig::default` (derived): a fresh configuration holds no
/// directory entry.
#[verifier::external_body]
pub(crate) fn empty_config() -> (r: fontconfig_parser::FontConfig)
    ensures
        dir_entries(r) == Seq::<Option<Seq<char>>>::empty(),
{
    fontconfig_parser::FontConfig::default()
}

/// Relies on `FontConfig::merge_config`: reads the file at `path`, parses it
/// with its includes and merges it into `c`. What it adds or resets depends
/// on the files on disk, so nothing is stated of it.
#[verifier::external_body]
pub(crate) fn merge_file(c: &mut fontconfig_parser::FontConfig, path: &str) -> (r: Result<
    (),
    fontconfig_parser::Error,
>) {
    c.merge_config(path)
}

/// Relies on the public `dirs` field of `FontConfig` and on `Path::to_str`:
/// every entry's path as text, in order, or `None` if one of them is not
/// valid UTF-8.
#[verifier::external_body]
pub(crate) fn dir_paths(c: &fontconfig_parser::FontConfig) -> (r: Option<Vec<String>>)
    ensures
        r is None <==> !all_text(dir_entries(*c)),
        r is Some ==> entries_text(dir_entries(*c), r->Some_0@),
{
    c.dirs.iter().map(|d| d.path.to_str().map(|s| s.to_string())).collect()
}

} // verus!
