use vstd::prelude::*;

use crate::config::{dir_entries, dir_paths, empty_config, merge_file, all_text};
use crate::disk::path_exists;

verus! {

/// A snapshot of the environment variables that steer the cascade.
pub struct Environment {
    /// The user's home directory (`HOME`).
    pub home: Option<String>,
    /// The user configuration root override (`XDG_CONFIG_HOME`).
    pub config_root: Option<String>,
    /// An explicit single configuration file (`FONTCONFIG_FILE`).
    pub config_file: Option<String>,
}

pub open spec fn opt_view(o: Option<String>) -> Option<Seq<char>> {
    match o {
        Some(s) => Some(s@),
        None => None,
    }
}

/// The directory that holds the user's font configuration.
pub open spec fn config_home_of(env: Environment) -> Option<Seq<char>> {
    match env.config_root {
        Some(root) if root@.len() > 0 => Some(root@ + "/fontconfig"@),
        _ => match env.home {
            Some(home) => Some(home@ + "/.config/fontconfig"@),
            None => None,
        },
    }
}

/// Resolves the configuration home: `<root>/fontconfig` when the root
/// override is set and non-empty, else `<home>/.config/fontconfig`, else
/// nothing.
pub fn config_home(env: &Environment) -> (r: Option<String>)
    ensures
        opt_view(r) == config_home_of(*env),
{
    match &env.config_root {
        Some(root) if !root.as_str().is_empty() => {
            return Some(root.clone().concat("/fontconfig"));
        },
        _ => {},
    }
    match &env.home {
        Some(home) => Some(home.clone().concat("/.config/fontconfig")),
        None => None,
    }
}

/// The fixed system configuration file.
pub const SYSTEM_CONFIG_FILE: &'static str = "/etc/fonts/fonts.conf";

/// The user configuration file, inside the configuration home.
pub open spec fn user_config_file_of(env: Environment) -> Option<Seq<char>> {
    match config_home_of(env) {
        Some(dir) => Some(dir + "/fonts.conf"@),
        None => None,
    }
}

/// The files consulted, in order: the explicit file alone when it is set;
/// otherwise the system file and then the user file, each only where it
/// exists.
pub open spec fn sources_of(env: Environment, system_exists: bool, user_exists: bool) -> Seq<
    Seq<char>,
> {
    match env.config_file {
        Some(f) => seq![f@],
        None => {
            let system = if system_exists {
                seq![SYSTEM_CONFIG_FILE@]
            } else {
                Seq::empty()
            };
            let user = match user_config_file_of(env) {
                Some(u) if user_exists => seq![u],
                _ => Seq::empty(),
            };
            system + user
        },
    }
}

pub open spec fn strings_view(v: Seq<String>) -> Seq<Seq<char>> {
    v.map_values(|s: String| s@)
}

/// Resolves the user configuration file, `<configuration home>/fonts.conf`.
pub fn user_config_file(env: &Environment) -> (r: Option<String>)
    ensures
        opt_view(r) == user_config_file_of(*env),
{
    match config_home(env) {
        Some(dir) => Some(dir.concat("/fonts.conf")),
        None => None,
    }
}

/// Lists the configuration files to merge, in order, given whether the
/// system file and the user file exist.
pub fn plan_sources(env: &Environment, system_exists: bool, user_exists: bool) -> (r: Vec<String>)
    ensures
        strings_view(r@) == sources_of(*env, system_exists, user_exists),
{
    let mut r: Vec<String> = Vec::new();
    match &env.config_file {
        Some(f) => {
            r.push(f.clone());
            assert(strings_view(r@) =~= sources_of(*env, system_exists, user_exists));
            return r;
        },
        None => {},
    }
    if system_exists {
        r.push(SYSTEM_CONFIG_FILE.to_owned());
    }
    if user_exists {
        match user_config_file(env) {
            Some(u) => r.push(u),
            None => {},
        }
    }
    assert(strings_view(r@) =~= sources_of(*env, system_exists, user_exists));
    r
}

/// Why a cascade resolution failed.
#[derive(Debug)]
pub enum CascadeError {
    /// A consulted configuration file could not be read or parsed.
    Config(fontconfig_parser::Error),
    /// A path begins with `~` and no home directory is known.
    MissingHome,
    /// A declared directory path is not valid UTF-8.
    NonUtf8Path,
}

/// The path begins with a tilde.
pub open spec fn has_tilde(p: Seq<char>) -> bool {
    p.len() > 0 && p[0] == '~'
}

/// Replaces a leading `~` by the home directory, where one is known.
pub open spec fn expand_path(p: Seq<char>, home: Option<Seq<char>>) -> Seq<char> {
    match home {
        Some(h) if has_tilde(p) => h + p.drop_first(),
        _ => p,
    }
}

/// Keeps the first occurrence of each path, in order.
pub open spec fn dedup_of(s: Seq<Seq<char>>) -> Seq<Seq<char>>
    decreases s.len(),
{
    if s.len() == 0 {
        Seq::empty()
    } else {
        let r = dedup_of(s.drop_last());
        if r.contains(s.last()) {
            r
        } else {
            r.push(s.last())
        }
    }
}

/// Some path of `raw` needs the home directory.
pub open spec fn needs_home(raw: Seq<Seq<char>>) -> bool {
    exists|i: int| 0 <= i < raw.len() && has_tilde(#[trigger] raw[i])
}

/// Every path of `raw` expanded, in order.
pub open spec fn expand_all(raw: Seq<Seq<char>>, home: Option<Seq<char>>) -> Seq<Seq<char>> {
    raw.map_values(|p: Seq<char>| expand_path(p, home))
}

/// The directory list resolved from the raw declarations.
pub open spec fn resolved_of(raw: Seq<Seq<char>>, home: Option<Seq<char>>) -> Seq<Seq<char>> {
    dedup_of(expand_all(raw, home))
}

/// Expands a leading `~` of `path` to the home directory. Fails only where
/// the path needs the home directory and none is known.
pub fn expand_tilde(path: &str, home: &Option<String>) -> (r: Result<String, CascadeError>)
    ensures
        r is Err <==> (has_tilde(path@) && home is None),
        r is Err ==> r->Err_0 is MissingHome,
        r is Ok ==> r->Ok_0@ == expand_path(path@, opt_view(*home)),
{
    let n = path.unicode_len();
    if n > 0 && path.get_char(0) == '~' {
        match home {
            Some(h) => {
                let rest = path.substring_char(1, n);
                let r = h.clone().concat(rest);
                assert(rest@ =~= path@.drop_first());
                Ok(r)
            },
            None => Err(CascadeError::MissingHome),
        }
    } else {
        Ok(path.to_owned())
    }
}

fn contains_path(v: &Vec<String>, p: &String) -> (r: bool)
    ensures
        r == strings_view(v@).contains(p@),
{
    let mut j: usize = 0;
    while j < v.len()
        invariant
            0 <= j <= v.len(),
            forall|k: int| 0 <= k < j ==> v@[k]@ != p@,
        decreases v.len() - j,
    {
        if v[j] == *p {
            assert(strings_view(v@)[j as int] == p@);
            return true;
        }
        j += 1;
    }
    assert forall|k: int| 0 <= k < strings_view(v@).len() implies strings_view(v@)[k] != p@ by {}
    false
}

/// Removes later duplicates, keeping the first occurrence of each path in
/// its place.
pub fn dedup(paths: &Vec<String>) -> (r: Vec<String>)
    ensures
        strings_view(r@) == dedup_of(strings_view(paths@)),
{
    let mut r: Vec<String> = Vec::new();
    let mut i: usize = 0;
    while i < paths.len()
        invariant
            0 <= i <= paths.len(),
            strings_view(r@) == dedup_of(strings_view(paths@.subrange(0, i as int))),
        decreases paths.len() - i,
    {
        let ghost before = strings_view(paths@.subrange(0, i as int));
        let ghost after = strings_view(paths@.subrange(0, i + 1));
        assert(after.drop_last() =~= before);
        assert(after.last() == paths@[i as int]@);
        if !contains_path(&r, &paths[i]) {
            r.push(paths[i].clone());
            assert(strings_view(r@) =~= dedup_of(before).push(paths@[i as int]@));
        }
        i += 1;
    }
    assert(paths@.subrange(0, paths@.len() as int) =~= paths@);
    r
}

/// Expands every raw directory path and removes duplicates. Fails only where
/// a path needs the home directory and none is known.
pub fn resolve_dirs(raw: &Vec<String>, home: &Option<String>) -> (r: Result<
    Vec<String>,
    CascadeError,
>)
    ensures
        r is Err <==> (needs_home(strings_view(raw@)) && home is None),
        r is Err ==> r->Err_0 is MissingHome,
        r is Ok ==> strings_view(r->Ok_0@) == resolved_of(strings_view(raw@), opt_view(*home)),
{
    let ghost rv = strings_view(raw@);
    let mut expanded: Vec<String> = Vec::new();
    let mut i: usize = 0;
    while i < raw.len()
        invariant
            0 <= i <= raw.len(),
            rv == strings_view(raw@),
            strings_view(expanded@) == expand_all(rv.subrange(0, i as int), opt_view(*home)),
            home is None ==> forall|k: int| 0 <= k < i ==> !has_tilde(#[trigger] rv[k]),
        decreases raw.len() - i,
    {
        match expand_tilde(raw[i].as_str(), home) {
            Ok(p) => {
                let ghost prev = strings_view(expanded@);
                assert(p@ == expand_path(rv[i as int], opt_view(*home)));
                expanded.push(p);
                assert(strings_view(expanded@) =~= prev.push(p@));
                assert(strings_view(expanded@) =~= expand_all(
                    rv.subrange(0, i + 1),
                    opt_view(*home),
                ));
            },
            Err(e) => {
                assert(has_tilde(rv[i as int]));
                return Err(e);
            },
        }
        i += 1;
    }
    assert(rv.subrange(0, rv.len() as int) =~= rv);
    Ok(dedup(&expanded))
}

/// `merged` is what a load of `planned` hands to the parser: every planned
/// file in order or, where a file fails, the planned files up to and
/// including that one.
pub open spec fn handed_over(merged: Seq<Seq<char>>, planned: Seq<Seq<char>>, failed: bool) -> bool {
    if failed {
        &&& 0 < merged.len() <= planned.len()
        &&& merged == planned.subrange(0, merged.len() as int)
    } else {
        merged == planned
    }
}

/// Merges the given configuration files, in order, into a fresh
/// configuration. The first file that cannot be read or parsed ends the
/// merge with its error. Also returns the record of the paths handed to the
/// parser, in order.
pub fn load_config(sources: &Vec<String>) -> (r: (
    Result<fontconfig_parser::FontConfig, CascadeError>,
    Ghost<Seq<Seq<char>>>,
))
    ensures
        r.0 is Err ==> r.0->Err_0 is Config,
        handed_over(r.1@, strings_view(sources@), r.0 is Err),
        sources@.len() == 0 ==> r.0 is Ok && dir_entries(r.0->Ok_0) == Seq::<
            Option<Seq<char>>,
        >::empty(),
{
    let mut config = empty_config();
    let ghost mut merged: Seq<Seq<char>> = Seq::empty();
    let mut i: usize = 0;
    while i < sources.len()
        invariant
            0 <= i <= sources.len(),
            merged == strings_view(sources@).subrange(0, i as int),
            sources@.len() == 0 ==> dir_entries(config) == Seq::<Option<Seq<char>>>::empty(),
        decreases sources.len() - i,
    {
        proof {
            merged = merged.push(sources@[i as int]@);
            assert(merged =~= strings_view(sources@).subrange(0, i + 1));
        }
        match merge_file(&mut config, sources[i].as_str()) {
            Ok(()) => {},
            Err(e) => {
                return (Err(CascadeError::Config(e)), Ghost(merged));
            },
        }
        i += 1;
    }
    assert(merged =~= strings_view(sources@));
    (Ok(config), Ghost(merged))
}

/// The path texts of directory entries, in order.
pub open spec fn entry_texts(entries: Seq<Option<Seq<char>>>) -> Seq<Seq<char>> {
    entries.map_values(|e: Option<Seq<char>>| e.unwrap_or(Seq::empty()))
}

/// Resolves the directory list of a merged configuration: the entries'
/// paths, expanded against the home directory and without duplicates. Fails
/// where a path is not valid UTF-8, else where a path needs the home
/// directory and none is known.
pub fn dirs_of_config(config: &fontconfig_parser::FontConfig, home: &Option<String>) -> (r: Result<
    Vec<String>,
    CascadeError,
>)
    ensures
        r is Err && r->Err_0 is NonUtf8Path <==> !all_text(dir_entries(*config)),
        r is Err && r->Err_0 is MissingHome <==> all_text(dir_entries(*config)) && needs_home(
            entry_texts(dir_entries(*config)),
        ) && home is None,
        r is Err ==> r->Err_0 is NonUtf8Path || r->Err_0 is MissingHome,
        r is Ok ==> strings_view(r->Ok_0@) == resolved_of(
            entry_texts(dir_entries(*config)),
            opt_view(*home),
        ),
{
    let raw = match dir_paths(config) {
        Some(v) => v,
        None => {
            return Err(CascadeError::NonUtf8Path);
        },
    };
    assert(strings_view(raw@) =~= entry_texts(dir_entries(*config)));
    resolve_dirs(&raw, home)
}

/// Resolves the directory list given whether the system file and the user
/// file exist: merges the planned sources, reads the directory entries and
/// resolves them against the home directory. Also returns the record of the
/// paths handed to the parser, in order.
pub fn dirs_from(env: &Environment, system_exists: bool, user_exists: bool) -> (r: (
    Result<Vec<String>, CascadeError>,
    Ghost<Seq<Seq<char>>>,
))
    ensures
        handed_over(
            r.1@,
            sources_of(*env, system_exists, user_exists),
            r.0 is Err && r.0->Err_0 is Config,
        ),
        sources_of(*env, system_exists, user_exists).len() == 0 ==> r.0 is Ok
            && r.0->Ok_0@.len() == 0,
        r.0 is Ok ==> exists|c: fontconfig_parser::FontConfig|
            strings_view(r.0->Ok_0@) == resolved_of(
                entry_texts(#[trigger] dir_entries(c)),
                opt_view(env.home),
            ),
        r.0 is Ok ==> strings_view(r.0->Ok_0@).no_duplicates(),
        r.0 is Err && r.0->Err_0 is MissingHome ==> env.home is None,
{
    let sources = plan_sources(env, system_exists, user_exists);
    let (loaded, merged) = load_config(&sources);
    let config = match loaded {
        Ok(c) => c,
        Err(e) => {
            return (Err(e), merged);
        },
    };
    let r = dirs_of_config(&config, &env.home);
    proof {
        let t = entry_texts(dir_entries(config));
        if sources@.len() == 0 {
            assert(t =~= Seq::<Seq<char>>::empty());
            assert(expand_all(t, opt_view(env.home)) =~= Seq::<Seq<char>>::empty());
            assert(!needs_home(t));
        }
        if r is Ok {
            lemma_dedup_no_duplicates(expand_all(t, opt_view(env.home)));
        }
    }
    (r, merged)
}

/// Resolves the directory list of the configuration cascade: the explicit
/// file alone when it is set, else the system file and the user file where
/// they exist on disk. Also returns the record of the paths handed to the
/// parser, in order.
pub fn dirs(env: &Environment) -> (r: (Result<Vec<String>, CascadeError>, Ghost<Seq<Seq<char>>>))
    ensures
        exists|system_exists: bool, user_exists: bool|
            handed_over(
                r.1@,
                #[trigger] sources_of(*env, system_exists, user_exists),
                r.0 is Err && r.0->Err_0 is Config,
            ),
        r.0 is Ok ==> exists|c: fontconfig_parser::FontConfig|
            strings_view(r.0->Ok_0@) == resolved_of(
                entry_texts(#[trigger] dir_entries(c)),
                opt_view(env.home),
            ),
        r.0 is Ok ==> strings_view(r.0->Ok_0@).no_duplicates(),
        r.0 is Err && r.0->Err_0 is MissingHome ==> env.home is None,
{
    if env.config_file.is_some() {
        return dirs_from(env, false, false);
    }
    let system_exists = path_exists(SYSTEM_CONFIG_FILE);
    let user_exists = match user_config_file(env) {
        Some(u) => path_exists(u.as_str()),
        None => false,
    };
    dirs_from(env, system_exists, user_exists)
}

/// Every path of a deduplicated list is one of the input, and every path of
/// the input is kept.
pub proof fn lemma_dedup_contains(s: Seq<Seq<char>>)
    ensures
        forall|x: Seq<char>| dedup_of(s).contains(x) <==> s.contains(x),
    decreases s.len(),
{
    if s.len() > 0 {
        lemma_dedup_contains(s.drop_last());
        let t = s.drop_last();
        let r = dedup_of(t);
        assert forall|x: Seq<char>| dedup_of(s).contains(x) <==> s.contains(x) by {
            assert(r.contains(x) <==> t.contains(x));
            assert(dedup_of(s) == (if r.contains(s.last()) {
                r
            } else {
                r.push(s.last())
            }));
            if s.contains(x) {
                let d = dedup_of(s);
                let k = choose|k: int| 0 <= k < s.len() && s[k] == x;
                if k < s.len() - 1 {
                    assert(t[k] == x);
                    assert(t.contains(x));
                    let j = choose|j: int| 0 <= j < r.len() && r[j] == x;
                    assert(d[j] == x);
                } else if !r.contains(s.last()) {
                    assert(d[r.len() as int] == x);
                } else {
                    assert(s.last() == x);
                    let j = choose|j: int| 0 <= j < r.len() && r[j] == x;
                    assert(d[j] == x);
                }
                assert(d.contains(x));
            }
            if dedup_of(s).contains(x) {
                if !r.contains(x) {
                    let k = choose|k: int| 0 <= k < dedup_of(s).len() && dedup_of(s)[k] == x;
                    if k < r.len() {
                        assert(r[k] == x);
                    }
                    assert(s[s.len() - 1] == x);
                } else {
                    assert(t.contains(x));
                    let k = choose|k: int| 0 <= k < t.len() && t[k] == x;
                    assert(s[k] == x);
                }
            }
        }
    }
}

/// A deduplicated list holds no path twice.
pub proof fn lemma_dedup_no_duplicates(s: Seq<Seq<char>>)
    ensures
        dedup_of(s).no_duplicates(),
    decreases s.len(),
{
    if s.len() > 0 {
        lemma_dedup_no_duplicates(s.drop_last());
        let r = dedup_of(s.drop_last());
        if !r.contains(s.last()) {
            assert forall|i: int, j: int|
                0 <= i < r.push(s.last()).len() && 0 <= j < r.push(s.last()).len() && i != j
                implies r.push(s.last())[i] != r.push(s.last())[j] by {
                if i == r.len() {
                    assert(r[j] != s.last());
                } else if j == r.len() {
                    assert(r[i] != s.last());
                }
            }
        }
    }
}

/// A list that holds no path twice is left as it is.
pub proof fn lemma_dedup_unique_input(s: Seq<Seq<char>>)
    requires
        s.no_duplicates(),
    ensures
        dedup_of(s) == s,
    decreases s.len(),
{
    if s.len() > 0 {
        let t = s.drop_last();
        assert(t.no_duplicates());
        lemma_dedup_unique_input(t);
        assert(!t.contains(s.last())) by {
            if t.contains(s.last()) {
                let k = choose|k: int| 0 <= k < t.len() && t[k] == s.last();
                assert(s[k] == s[s.len() - 1]);
            }
        }
        assert(t.push(s.last()) =~= s);
    }
}

/// `a` is seen in `s` before `b` is first seen.
pub open spec fn seen_before(s: Seq<Seq<char>>, a: Seq<char>, b: Seq<char>) -> bool {
    exists|k: int| 0 <= k < s.len() && s[k] == a && !(#[trigger] s.subrange(0, k)).contains(b)
}

/// A deduplicated list keeps the order in which paths are first seen.
pub proof fn lemma_dedup_first_seen_order(s: Seq<Seq<char>>)
    ensures
        forall|i: int, j: int|
            0 <= i < j < dedup_of(s).len() ==> seen_before(
                s,
                #[trigger] dedup_of(s)[i],
                #[trigger] dedup_of(s)[j],
            ),
    decreases s.len(),
{
    if s.len() > 0 {
        let t = s.drop_last();
        let r = dedup_of(t);
        let d = dedup_of(s);
        lemma_dedup_first_seen_order(t);
        lemma_dedup_contains(t);
        assert forall|i: int, j: int| 0 <= i < j < d.len() implies seen_before(s, d[i], d[j]) by {
            if j < r.len() {
                assert(d[i] == r[i] && d[j] == r[j]);
                assert(seen_before(t, r[i], r[j]));
                let k = choose|k: int|
                    0 <= k < t.len() && t[k] == r[i] && !(#[trigger] t.subrange(0, k)).contains(
                        r[j],
                    );
                assert(s.subrange(0, k) =~= t.subrange(0, k));
                assert(s[k] == d[i]);
            } else {
                assert(d[j] == s.last());
                assert(!t.contains(s.last()));
                assert(r.contains(d[i])) by {
                    assert(r[i] == d[i]);
                }
                assert(r.contains(d[i]) <==> t.contains(d[i]));
                let k = choose|k: int| 0 <= k < t.len() && t[k] == d[i];
                assert(s.subrange(0, k) =~= t.subrange(0, k));
                if s.subrange(0, k).contains(d[j]) {
                    let m = choose|m: int| 0 <= m < k && s.subrange(0, k)[m] == d[j];
                    assert(t[m] == s.last());
                    assert(t.contains(s.last()));
                }
                assert(s[k] == d[i]);
            }
        }
    }
}

/// A resolved list holds each distinct expanded path exactly once, and only
/// those, in the order in which they are first seen; where the expanded
/// declarations hold no path twice, the resolved list is exactly the
/// expanded declarations, in the order declared.
pub proof fn lemma_each_path_once(raw: Seq<Seq<char>>, home: Option<Seq<char>>)
    ensures
        resolved_of(raw, home).no_duplicates(),
        forall|x: Seq<char>|
            resolved_of(raw, home).contains(x) <==> expand_all(raw, home).contains(x),
        expand_all(raw, home).no_duplicates() ==> resolved_of(raw, home) == expand_all(raw, home),
        forall|i: int, j: int|
            0 <= i < j < resolved_of(raw, home).len() ==> seen_before(
                expand_all(raw, home),
                #[trigger] resolved_of(raw, home)[i],
                #[trigger] resolved_of(raw, home)[j],
            ),
{
    lemma_dedup_first_seen_order(expand_all(raw, home));
    lemma_dedup_no_duplicates(expand_all(raw, home));
    lemma_dedup_contains(expand_all(raw, home));
    if expand_all(raw, home).no_duplicates() {
        lemma_dedup_unique_input(expand_all(raw, home));
    }
}

/// When the explicit file is set, it is the only source consulted, whatever
/// the other variables hold and whichever of the system and user files
/// exist: two snapshots with the same explicit file plan the same sources.
pub proof fn lemma_explicit_file_alone(
    a: Environment,
    b: Environment,
    a_system: bool,
    a_user: bool,
    b_system: bool,
    b_user: bool,
)
    requires
        a.config_file is Some,
        opt_view(a.config_file) == opt_view(b.config_file),
    ensures
        sources_of(a, a_system, a_user) == seq![a.config_file->Some_0@],
        sources_of(a, a_system, a_user) == sources_of(b, b_system, b_user),
{
}

/// Without the explicit file, and with neither the system file nor the user
/// file on disk, no source is consulted.
pub proof fn lemma_no_sources(env: Environment)
    requires
        env.config_file is None,
    ensures
        sources_of(env, false, false).len() == 0,
{
}

/// Deduplicating an already deduplicated list again changes nothing.
pub proof fn lemma_dedup_idempotent(s: Seq<Seq<char>>)
    ensures
        dedup_of(dedup_of(s)) == dedup_of(s),
{
    lemma_dedup_no_duplicates(s);
    lemma_dedup_unique_input(dedup_of(s));
}

} // verus!
