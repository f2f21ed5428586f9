use file_locator::error::LocateError;
use file_locator::locator::{first_match, FileSourceFile};
use file_locator::path::{LexPath, Segment};

fn name(s: &str) -> Segment {
    Segment::Name(s.to_string())
}

fn make(absolute: bool, segs: &[&str]) -> LexPath {
    LexPath { absolute, segments: segs.iter().map(|s| name(s)).collect() }
}

fn exts(list: &[&str]) -> Vec<String> {
    list.iter().map(|s| s.to_string()).collect()
}

#[test]
fn candidates_walk_upward_with_extension_order() {
    let source = FileSourceFile::new("settings");
    let cwd = make(true, &["home", "user", "proj"]);
    let candidates = source.plan(&cwd, &exts(&["toml", "json"])).expect("non-empty extensions");
    let shown: Vec<String> = candidates.iter().map(|c| c.to_path_string()).collect();
    assert_eq!(
        shown,
        vec![
            "/home/user/proj/settings.toml".to_string(),
            "/home/user/proj/settings.json".to_string(),
            "/home/user/settings.toml".to_string(),
            "/home/user/settings.json".to_string(),
            "/home/settings.toml".to_string(),
            "/home/settings.json".to_string(),
            "/settings.toml".to_string(),
            "/settings.json".to_string(),
        ]
    );
}

#[test]
fn candidates_join_subdirectory_before_name() {
    let source = FileSourceFile::with_subdirectory("settings", "conf");
    let cwd = make(true, &["srv"]);
    let candidates = source.plan(&cwd, &exts(&["yaml"])).expect("non-empty extensions");
    let shown: Vec<String> = candidates.iter().map(|c| c.to_path_string()).collect();
    assert_eq!(
        shown,
        vec!["/srv/conf/settings.yaml".to_string(), "/conf/settings.yaml".to_string()]
    );
}

#[test]
fn empty_extension_list_is_rejected() {
    let source = FileSourceFile::new("settings");
    let cwd = make(true, &["srv"]);
    let r = source.plan(&cwd, &Vec::new());
    assert_eq!(r.unwrap_err(), LocateError::EmptyExtensionList);
}

#[test]
fn select_takes_first_probe_hit() {
    let source = FileSourceFile::new("settings");
    let cwd = make(true, &["home", "user", "proj"]);
    let candidates = source.plan(&cwd, &exts(&["toml", "json"])).expect("non-empty extensions");
    let mut probes = vec![false; candidates.len()];
    probes[2] = true;
    let (found, shown) = source.select(&candidates, &probes, &cwd).expect("a probe hit");
    assert_eq!(found, candidates[2]);
    assert_eq!(found.to_path_string(), "/home/user/settings.toml");
    assert_eq!(shown.to_path_string(), "../settings.toml");
}

#[test]
fn extension_priority_wins_within_a_directory() {
    let source = FileSourceFile::new("settings");
    let cwd = make(true, &["home", "user", "proj"]);
    let candidates = source.plan(&cwd, &exts(&["toml", "json"])).expect("non-empty extensions");
    let mut probes = vec![false; candidates.len()];
    probes[0] = true;
    probes[1] = true;
    let (found, _) = source.select(&candidates, &probes, &cwd).expect("probes hit");
    assert_eq!(found.to_path_string(), "/home/user/proj/settings.toml");
}

#[test]
fn nearer_directory_wins_over_ancestor() {
    let source = FileSourceFile::new("settings");
    let cwd = make(true, &["home", "user", "proj"]);
    let candidates = source.plan(&cwd, &exts(&["toml", "json"])).expect("non-empty extensions");
    let mut probes = vec![false; candidates.len()];
    probes[0] = true;
    probes[4] = true;
    let (found, shown) = source.select(&candidates, &probes, &cwd).expect("probes hit");
    assert_eq!(found.to_path_string(), "/home/user/proj/settings.toml");
    assert_eq!(shown.to_path_string(), "settings.toml");
}

#[test]
fn exhausted_probes_report_not_found_with_basename() {
    let source = FileSourceFile::new("settings");
    let cwd = make(true, &["home", "user"]);
    let candidates = source.plan(&cwd, &exts(&["toml"])).expect("non-empty extensions");
    let probes = vec![false; candidates.len()];
    let err = source.select(&candidates, &probes, &cwd).unwrap_err();
    assert_eq!(err, LocateError::NotFound("settings".to_string()));
    assert_eq!(err.message(), "configuration file \"settings\" not found");
}

#[test]
fn not_found_basename_includes_subdirectory() {
    let source = FileSourceFile::with_subdirectory("settings", "conf");
    let cwd = make(true, &[]);
    let candidates = source.plan(&cwd, &exts(&["toml"])).expect("non-empty extensions");
    let probes = vec![false; candidates.len()];
    let err = source.select(&candidates, &probes, &cwd).unwrap_err();
    assert_eq!(err.message(), "configuration file \"conf/settings\" not found");
}

#[test]
fn search_from_root_probes_root_once_per_extension() {
    let source = FileSourceFile::new("app");
    let cwd = make(true, &[]);
    let candidates = source.plan(&cwd, &exts(&["ini", "cfg"])).expect("non-empty extensions");
    let shown: Vec<String> = candidates.iter().map(|c| c.to_path_string()).collect();
    assert_eq!(shown, vec!["/app.ini".to_string(), "/app.cfg".to_string()]);
}

#[test]
fn first_match_finds_earliest_hit() {
    assert_eq!(first_match(&vec![false, true, true]), Some(1));
    assert_eq!(first_match(&vec![true]), Some(0));
    assert_eq!(first_match(&vec![false, false]), None);
    assert_eq!(first_match(&Vec::new()), None);
}

#[test]
fn io_error_message_carries_host_description() {
    let err = LocateError::Io("permission denied".to_string());
    assert_eq!(err.message(), "permission denied");
    assert_eq!(
        LocateError::EmptyExtensionList.message(),
        "no candidate extensions were supplied"
    );
}

#[test]
fn basename_display_joins_subdirectory() {
    assert_eq!(FileSourceFile::new("settings").basename_display(), "settings");
    assert_eq!(
        FileSourceFile::with_subdirectory("settings", "conf").basename_display(),
        "conf/settings"
    );
}
