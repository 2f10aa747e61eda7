use fontdirs::cascade::{
    config_home, dedup, dirs, dirs_from, dirs_of_config, load_config, expand_tilde, plan_sources, resolve_dirs,
    user_config_file, CascadeError, Environment, SYSTEM_CONFIG_FILE,
};

fn strings(v: &[&str]) -> Vec<String> {
    v.iter().map(|s| s.to_string()).collect()
}

fn env(home: Option<&str>, root: Option<&str>, file: Option<&str>) -> Environment {
    Environment {
        home: home.map(|s| s.to_string()),
        config_root: root.map(|s| s.to_string()),
        config_file: file.map(|s| s.to_string()),
    }
}

#[test]
fn config_home_prefers_non_empty_root() {
    let e = env(Some("/home/alice"), Some("/cfg"), None);
    assert_eq!(config_home(&e), Some("/cfg/fontconfig".to_string()));
}

#[test]
fn config_home_falls_back_to_home_when_root_empty() {
    let e = env(Some("/home/alice"), Some(""), None);
    assert_eq!(config_home(&e), Some("/home/alice/.config/fontconfig".to_string()));
    let e = env(Some("/home/alice"), None, None);
    assert_eq!(config_home(&e), Some("/home/alice/.config/fontconfig".to_string()));
}

#[test]
fn config_home_absent_without_home() {
    assert_eq!(config_home(&env(None, None, None)), None);
    assert_eq!(user_config_file(&env(None, Some(""), None)), None);
}

#[test]
fn user_config_file_is_inside_config_home() {
    let e = env(Some("/home/alice"), None, None);
    assert_eq!(
        user_config_file(&e),
        Some("/home/alice/.config/fontconfig/fonts.conf".to_string())
    );
}

#[test]
fn plan_consults_system_then_user() {
    let e = env(Some("/home/alice"), None, None);
    assert_eq!(
        plan_sources(&e, true, true),
        strings(&[SYSTEM_CONFIG_FILE, "/home/alice/.config/fontconfig/fonts.conf"])
    );
    assert_eq!(plan_sources(&e, false, true), strings(&["/home/alice/.config/fontconfig/fonts.conf"]));
    assert_eq!(plan_sources(&e, true, false), strings(&["/etc/fonts/fonts.conf"]));
}

#[test]
fn plan_skips_user_file_without_home() {
    let e = env(None, None, None);
    assert_eq!(plan_sources(&e, true, true), strings(&["/etc/fonts/fonts.conf"]));
}

#[test]
fn explicit_file_is_the_only_source() {
    let e = env(Some("/home/alice"), Some("/cfg"), Some("/opt/my.conf"));
    for system in [false, true] {
        for user in [false, true] {
            assert_eq!(plan_sources(&e, system, user), strings(&["/opt/my.conf"]));
        }
    }
}

#[test]
fn explicit_missing_file_is_a_config_error() {
    let e = env(Some("/home/alice"), None, Some("/nonexistent-dir-for-fonts/fonts.conf"));
    let r = dirs_from(&e, true, true).0;
    assert!(matches!(r, Err(CascadeError::Config(_))));
}

#[test]
fn tilde_expands_to_home() {
    let home = Some("/home/alice".to_string());
    assert_eq!(expand_tilde("~/fonts", &home).unwrap(), "/home/alice/fonts");
}

#[test]
fn tilde_only_leading_and_bare() {
    let home = Some("/home/alice".to_string());
    assert_eq!(expand_tilde("/usr/share/fonts", &home).unwrap(), "/usr/share/fonts");
    assert_eq!(expand_tilde("/a/~b", &home).unwrap(), "/a/~b");
    assert_eq!(expand_tilde("~bob/fonts", &home).unwrap(), "/home/alicebob/fonts");
    assert_eq!(expand_tilde("~", &home).unwrap(), "/home/alice");
    assert_eq!(expand_tilde("", &home).unwrap(), "");
}

#[test]
fn tilde_without_home_is_an_error() {
    assert!(matches!(expand_tilde("~/fonts", &None), Err(CascadeError::MissingHome)));
    assert_eq!(expand_tilde("/fonts", &None).unwrap(), "/fonts");
}

#[test]
fn dedup_keeps_first_occurrences() {
    let raw = strings(&["/a", "/b", "/a", "/c", "/b"]);
    assert_eq!(dedup(&raw), strings(&["/a", "/b", "/c"]));
    assert_eq!(resolve_dirs(&raw, &None).unwrap(), strings(&["/a", "/b", "/c"]));
}

#[test]
fn dedup_of_empty_and_unique_lists() {
    assert_eq!(dedup(&Vec::new()), Vec::<String>::new());
    let raw = strings(&["/c", "/a", "/b"]);
    assert_eq!(dedup(&raw), raw);
}

#[test]
fn resolve_expands_before_deduplicating() {
    let raw = strings(&["~/fonts", "/home/alice/fonts", "/usr/share/fonts", "~/fonts"]);
    let home = Some("/home/alice".to_string());
    assert_eq!(
        resolve_dirs(&raw, &home).unwrap(),
        strings(&["/home/alice/fonts", "/usr/share/fonts"])
    );
}

#[test]
fn resolve_needs_home_only_for_tilde() {
    let raw = strings(&["/a", "~/b"]);
    assert!(matches!(resolve_dirs(&raw, &None), Err(CascadeError::MissingHome)));
    let raw = strings(&["/a", "/b"]);
    assert_eq!(resolve_dirs(&raw, &None).unwrap(), raw);
}

#[test]
fn no_sources_give_an_empty_list() {
    let e = env(Some("/home/alice"), None, None);
    assert_eq!(dirs_from(&e, false, false).0.unwrap(), Vec::<String>::new());
    let e = env(None, None, None);
    assert_eq!(dirs_from(&e, false, false).0.unwrap(), Vec::<String>::new());
}

#[test]
fn resolution_twice_gives_the_same_list() {
    let e = env(Some("/nonexistent-home-for-fonts"), None, None);
    let first = format!("{:?}", dirs(&e).0);
    let second = format!("{:?}", dirs(&e).0);
    assert_eq!(first, second);
    let raw = strings(&["/a", "~/b", "/a"]);
    let home = Some("/h".to_string());
    assert_eq!(resolve_dirs(&raw, &home).unwrap(), resolve_dirs(&raw, &home).unwrap());
}

fn parsed(paths: &[&str]) -> fontconfig_parser::FontConfig {
    let mut c = fontconfig_parser::FontConfig::default();
    for p in paths {
        c.dirs.push(fontconfig_parser::DirData {
            path: std::path::PathBuf::from(p),
            salt: String::new(),
        });
    }
    c
}

#[test]
fn merged_entries_are_expanded_and_deduplicated() {
    let c = parsed(&["~/fonts", "/usr/share/fonts", "/home/alice/fonts", "/usr/share/fonts"]);
    let home = Some("/home/alice".to_string());
    assert_eq!(
        dirs_of_config(&c, &home).unwrap(),
        strings(&["/home/alice/fonts", "/usr/share/fonts"])
    );
    assert!(matches!(dirs_of_config(&c, &None), Err(CascadeError::MissingHome)));
}

#[test]
fn empty_source_list_loads_an_empty_config() {
    let c = load_config(&Vec::new()).0.unwrap();
    assert!(c.dirs.is_empty());
    assert!(matches!(load_config(&strings(&["/nonexistent-dir-for-fonts/a.conf"])).0, Err(CascadeError::Config(_))));
}
