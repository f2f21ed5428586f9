use file_locator::path::{LexPath, Segment};
use file_locator::relative::{display_path, path_relative_from};

fn name(s: &str) -> Segment {
    Segment::Name(s.to_string())
}

fn make(absolute: bool, segs: &[&str]) -> LexPath {
    LexPath { absolute, segments: segs.iter().map(|s| name(s)).collect() }
}

#[test]
fn relativize_identity_is_empty() {
    let p = make(true, &["a", "b"]);
    let q = make(true, &["a", "b"]);
    let r = path_relative_from(&p, &q).expect("identical paths must relativize");
    assert!(!r.absolute);
    assert_eq!(r.segments.len(), 0);
    assert_eq!(r.to_path_string(), "");
}

#[test]
fn relativize_descendant_is_suffix() {
    let target = make(true, &["a", "b", "c"]);
    let base = make(true, &["a", "b"]);
    let r = path_relative_from(&target, &base).expect("descendant must relativize");
    assert_eq!(r.to_path_string(), "c");
}

#[test]
fn relativize_sibling_steps_up_once() {
    let target = make(true, &["a", "x"]);
    let base = make(true, &["a", "b"]);
    let r = path_relative_from(&target, &base).expect("sibling must relativize");
    assert_eq!(r.to_path_string(), "../x");
}

#[test]
fn relativize_divergent_steps_up_twice() {
    let target = make(true, &["a", "b", "c"]);
    let base = make(true, &["a", "x", "y"]);
    let r = path_relative_from(&target, &base).expect("divergent must relativize");
    assert_eq!(r.to_path_string(), "../../b/c");
}

#[test]
fn relativize_absolute_target_relative_base_passes_through() {
    let target = make(true, &["a", "b"]);
    let base = make(false, &["x"]);
    let r = path_relative_from(&target, &base).expect("absolute target must pass through");
    assert_eq!(r, target);
    assert_eq!(r.to_path_string(), "/a/b");
}

#[test]
fn relativize_relative_target_absolute_base_fails() {
    let target = make(false, &["a", "b"]);
    let base = make(true, &["x"]);
    assert!(path_relative_from(&target, &base).is_none());
}

#[test]
fn relativize_updir_in_base_remainder_fails() {
    let target = make(true, &["q", "r"]);
    let base = LexPath { absolute: true, segments: vec![name("q"), Segment::Up] };
    assert!(path_relative_from(&target, &base).is_none());
}

#[test]
fn relativize_heredir_in_base_remainder_costs_nothing() {
    let target = make(true, &["a", "y"]);
    let base = LexPath { absolute: true, segments: vec![name("a"), Segment::Here, name("x")] };
    let r = path_relative_from(&target, &base).expect("here markers must not block");
    assert_eq!(r.to_path_string(), "../y");
}

#[test]
fn relativize_longer_base_at_shared_prefix_climbs() {
    let target = make(true, &["a"]);
    let base = make(true, &["a", "b", "c"]);
    let r = path_relative_from(&target, &base).expect("ancestor target must relativize");
    assert_eq!(r.to_path_string(), "../..");
}

#[test]
fn display_path_prefers_relative_form() {
    let found = make(true, &["home", "settings.toml"]);
    let cwd = make(true, &["home", "user"]);
    let shown = display_path(&found, &cwd);
    assert_eq!(shown.to_path_string(), "../settings.toml");
}

#[test]
fn display_path_falls_back_to_found_path() {
    let found = make(false, &["settings.toml"]);
    let cwd = make(true, &["home", "user"]);
    let shown = display_path(&found, &cwd);
    assert_eq!(shown, found);
}

#[test]
fn render_root_and_empty() {
    let root = make(true, &[]);
    assert_eq!(root.to_path_string(), "/");
    let empty = make(false, &[]);
    assert_eq!(empty.to_path_string(), "");
    let markers = LexPath { absolute: false, segments: vec![Segment::Up, Segment::Here] };
    assert_eq!(markers.to_path_string(), "../.");
}
