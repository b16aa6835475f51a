use dirnav::entries::DirEntryInfo;
use dirnav::listing::Listing;

fn entry(name: &str, is_dir: bool) -> DirEntryInfo {
    DirEntryInfo::new(String::from(name), is_dir)
}

fn names(l: &Listing) -> Vec<String> {
    l.entries().iter().map(|e| e.name.clone()).collect()
}

#[test]
fn dot_entries_sort_first_then_case_insensitive() {
    let raw = vec![entry("a", false), entry("B", false), entry(".c", true), entry("d", false)];
    let (listing, omitted) = Listing::from_entries(raw);
    assert_eq!(omitted, 0);
    assert_eq!(names(&listing), vec![".c", "a", "B", "d"]);
}

#[test]
fn entries_the_order_does_not_tell_apart_keep_their_input_order() {
    let raw = vec![entry("README", false), entry("readme", false)];
    let (listing, omitted) = Listing::from_entries(raw);
    assert_eq!(omitted, 0);
    assert_eq!(names(&listing), vec!["README", "readme"]);
    let raw = vec![entry("readme", true), entry("README", true)];
    let (listing, _) = Listing::from_entries(raw);
    assert_eq!(names(&listing), vec!["readme", "README"]);
}

#[test]
fn lowercasing_decides_order_across_cases() {
    // Sorted by bytes alone, "B" (0x42) would come before "a" (0x61); the
    // case-insensitive order puts "a" first.
    let raw = vec![entry("B", false), entry("a", false)];
    let (listing, _) = Listing::from_entries(raw);
    assert_eq!(names(&listing), vec!["a", "B"]);
}

#[test]
fn dot_group_is_ordered_within_itself() {
    let raw = vec![entry(".z", false), entry(".A", false), entry("b", false)];
    let (listing, _) = Listing::from_entries(raw);
    assert_eq!(names(&listing), vec![".A", ".z", "b"]);
}

#[test]
fn ill_named_entries_are_dropped_and_counted() {
    let raw = vec![entry("ok", false), entry("", false), entry("bad/name", true)];
    let (listing, omitted) = Listing::from_entries(raw);
    assert_eq!(omitted, 2);
    assert_eq!(names(&listing), vec!["ok"]);
}

#[test]
fn empty_directory_gives_empty_listing() {
    let (listing, omitted) = Listing::from_entries(Vec::new());
    assert_eq!(omitted, 0);
    assert_eq!(listing.len(), 0);
}

#[test]
fn get_returns_entries_in_display_order() {
    let raw = vec![entry("beta", true), entry("alpha", false)];
    let (listing, _) = Listing::from_entries(raw);
    assert_eq!(listing.get(0).name, "alpha");
    assert!(!listing.get(0).is_dir);
    assert_eq!(listing.get(1).name, "beta");
    assert!(listing.get(1).is_dir);
}
