use dirnav::paths::{join_path, name_is_wf, parent_path, path_is_wf};

#[test]
fn path_wf_accepts_plain_paths() {
    assert!(path_is_wf("/"));
    assert!(path_is_wf("/root"));
    assert!(path_is_wf("/root/sub"));
    assert!(path_is_wf("relative/dir"));
    assert!(path_is_wf("a"));
}

#[test]
fn path_wf_rejects_malformed_paths() {
    assert!(!path_is_wf(""));
    assert!(!path_is_wf("/root/"));
    assert!(!path_is_wf("//"));
    assert!(!path_is_wf("/a//b"));
}

#[test]
fn name_wf_rejects_empty_and_separator() {
    assert!(name_is_wf("sub"));
    assert!(name_is_wf(".config"));
    assert!(!name_is_wf(""));
    assert!(!name_is_wf("a/b"));
}

#[test]
fn join_inserts_separator() {
    assert_eq!(join_path("/root", "sub"), "/root/sub");
    assert_eq!(join_path("a/b", "c"), "a/b/c");
}

#[test]
fn join_at_root_adds_no_second_separator() {
    assert_eq!(join_path("/", "sub"), "/sub");
}

#[test]
fn parent_drops_last_component() {
    assert_eq!(parent_path("/root/sub").as_deref(), Some("/root"));
    assert_eq!(parent_path("a/b/c").as_deref(), Some("a/b"));
    assert_eq!(parent_path("/sub").as_deref(), Some("/"));
}

#[test]
fn parent_of_root_and_bare_component_is_none() {
    assert_eq!(parent_path("/"), None);
    assert_eq!(parent_path("a"), None);
}

#[test]
fn join_then_parent_round_trips() {
    let joined = join_path("/root", "sub");
    assert_eq!(parent_path(joined.as_str()).as_deref(), Some("/root"));
    let joined = join_path("/", "top");
    assert_eq!(parent_path(joined.as_str()).as_deref(), Some("/"));
}
