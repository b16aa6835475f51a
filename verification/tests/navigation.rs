use dirnav::entries::DirEntryInfo;
use dirnav::nav::{NavAction, NavCommand, NavError, NavState};

fn entry(name: &str, is_dir: bool) -> DirEntryInfo {
    DirEntryInfo::new(String::from(name), is_dir)
}

fn root_entries() -> Vec<DirEntryInfo> {
    vec![entry("file.txt", false), entry("sub", true)]
}

fn state(path: &str, raw: Vec<DirEntryInfo>) -> NavState {
    NavState::new(String::from(path), raw).0
}

fn listing_names(s: &NavState) -> Vec<String> {
    s.listing().entries().iter().map(|e| e.name.clone()).collect()
}

#[test]
fn new_state_selects_first_entry() {
    let s = state("/root", root_entries());
    assert_eq!(s.current_path().as_str(), "/root");
    assert_eq!(s.selected_index(), Some(0));
    assert_eq!(listing_names(&s), vec!["file.txt", "sub"]);
}

#[test]
fn selection_wraps_at_both_ends() {
    let mut s = state("/root", root_entries());
    s.move_selection_down();
    assert_eq!(s.selected_index(), Some(1));
    s.move_selection_down();
    assert_eq!(s.selected_index(), Some(0));
    s.move_selection_up();
    assert_eq!(s.selected_index(), Some(1));
    s.move_selection_up();
    assert_eq!(s.selected_index(), Some(0));
}

#[test]
fn empty_listing_has_no_selection_and_movement_is_a_no_op() {
    let mut s = state("/root", Vec::new());
    assert_eq!(s.selected_index(), None);
    s.move_selection_down();
    assert_eq!(s.selected_index(), None);
    s.move_selection_up();
    assert_eq!(s.selected_index(), None);
    assert_eq!(s.current_path().as_str(), "/root");
}

#[test]
fn descend_on_directory_names_the_joined_path() {
    let mut s = state("/root", root_entries());
    s.move_selection_down();
    let action = s.step(NavCommand::Descend);
    match action {
        NavAction::ReadDir(target) => assert_eq!(target, "/root/sub"),
        _ => panic!("descend on a directory must ask for a read"),
    }
    // The state itself has not moved yet.
    assert_eq!(s.current_path().as_str(), "/root");
    assert_eq!(listing_names(&s), vec!["file.txt", "sub"]);
}

#[test]
fn descend_applied_moves_to_fresh_listing() {
    let mut s = state("/root", root_entries());
    s.move_selection_down();
    let target = match s.step(NavCommand::Descend) {
        NavAction::ReadDir(t) => t,
        _ => panic!("expected a read"),
    };
    let inner = vec![entry("inner.txt", false)];
    let r = s.apply_read(target, Some(inner));
    assert_eq!(r, Ok(0));
    assert_eq!(s.current_path().as_str(), "/root/sub");
    assert_eq!(listing_names(&s), vec!["inner.txt"]);
    assert_eq!(s.selected_index(), Some(0));
}

#[test]
fn descend_on_file_changes_nothing() {
    let mut s = state("/root", root_entries());
    assert_eq!(s.selected_index(), Some(0));
    let action = s.step(NavCommand::Descend);
    assert!(matches!(action, NavAction::Redraw));
    assert_eq!(s.current_path().as_str(), "/root");
    assert_eq!(listing_names(&s), vec!["file.txt", "sub"]);
    assert_eq!(s.selected_index(), Some(0));
}

#[test]
fn descend_with_no_selection_changes_nothing() {
    let mut s = state("/root", Vec::new());
    let action = s.step(NavCommand::Descend);
    assert!(matches!(action, NavAction::Redraw));
    assert_eq!(s.current_path().as_str(), "/root");
}

#[test]
fn ascend_at_root_is_a_no_op() {
    let mut s = state("/", root_entries());
    let before_names = listing_names(&s);
    let before_selected = s.selected_index();
    let action = s.step(NavCommand::Ascend);
    assert!(matches!(action, NavAction::Redraw));
    assert_eq!(s.current_path().as_str(), "/");
    assert_eq!(listing_names(&s), before_names);
    assert_eq!(s.selected_index(), before_selected);
}

#[test]
fn ascend_names_the_parent_path() {
    let mut s = state("/root/sub", vec![entry("inner.txt", false)]);
    let action = s.step(NavCommand::Ascend);
    match action {
        NavAction::ReadDir(target) => assert_eq!(target, "/root"),
        _ => panic!("ascend off a non-root path must ask for a read"),
    }
}

#[test]
fn failed_read_rolls_back_atomically() {
    let mut s = state("/root", root_entries());
    s.move_selection_down();
    let target = match s.step(NavCommand::Descend) {
        NavAction::ReadDir(t) => t,
        _ => panic!("expected a read"),
    };
    let r = s.apply_read(target, None);
    assert_eq!(r, Err(NavError::DirectoryUnreadable));
    assert_eq!(s.current_path().as_str(), "/root");
    assert_eq!(listing_names(&s), vec!["file.txt", "sub"]);
    assert_eq!(s.selected_index(), Some(1));
}

#[test]
fn descend_then_ascend_round_trips() {
    let mut s = state("/root", root_entries());
    s.move_selection_down();
    let down = match s.step(NavCommand::Descend) {
        NavAction::ReadDir(t) => t,
        _ => panic!("expected a read"),
    };
    s.apply_read(down, Some(vec![entry("inner.txt", false)])).unwrap();
    assert_eq!(s.current_path().as_str(), "/root/sub");
    let up = match s.step(NavCommand::Ascend) {
        NavAction::ReadDir(t) => t,
        _ => panic!("expected a read"),
    };
    assert_eq!(up, "/root");
    s.apply_read(up, Some(root_entries())).unwrap();
    assert_eq!(s.current_path().as_str(), "/root");
    assert_eq!(listing_names(&s), vec!["file.txt", "sub"]);
}

#[test]
fn confirm_surfaces_the_current_path() {
    let mut s = state("/root", root_entries());
    let action = s.step(NavCommand::Confirm);
    match action {
        NavAction::Finish(result) => assert_eq!(result.as_deref(), Some("/root")),
        _ => panic!("confirm must finish the session"),
    }
    assert_eq!(s.current_path().as_str(), "/root");
}

#[test]
fn quit_surfaces_no_path() {
    let mut s = state("/root", root_entries());
    let action = s.step(NavCommand::Quit);
    match action {
        NavAction::Finish(result) => assert_eq!(result, None),
        _ => panic!("quit must finish the session"),
    }
}

#[test]
fn new_state_reports_dropped_entries() {
    let raw = vec![entry("ok", false), entry("bad/name", false)];
    let (s, omitted) = NavState::new(String::from("/root"), raw);
    assert_eq!(omitted, 1);
    assert_eq!(listing_names(&s), vec!["ok"]);
}
