use rdedup::entry::{is_hidden, is_passed_over, name_is_hidden, name_is_place, DirectoryEntry};
use rdedup::policy::{Config, TraversalPolicy};

fn config() -> Config {
    Config {
        roots: None,
        follow_links: false,
        min_depth: None,
        max_depth: None,
        fd_max: 32,
        same_file_system: false,
    }
}

fn entry(name: Option<&str>) -> DirectoryEntry {
    DirectoryEntry {
        path: String::from("/somewhere"),
        depth: 1,
        is_directory: false,
        file_name: name.map(String::from),
    }
}

#[test]
fn defaults_are_applied() {
    let policy = config().policy();
    assert!(!policy.follow_symlinks);
    assert_eq!(policy.min_depth, 0);
    assert_eq!(policy.max_depth, None);
    assert_eq!(policy.max_open_handles, 32);
    assert!(!policy.stay_on_filesystem);
}

#[test]
fn given_settings_are_kept() {
    let mut c = config();
    c.follow_links = true;
    c.min_depth = Some(2);
    c.max_depth = Some(5);
    c.fd_max = 7;
    c.same_file_system = true;
    let policy = c.policy();
    assert!(policy.follow_symlinks);
    assert_eq!(policy.min_depth, 2);
    assert_eq!(policy.max_depth, Some(5));
    assert_eq!(policy.max_open_handles, 7);
    assert!(policy.stay_on_filesystem);
}

#[test]
fn a_handle_limit_of_zero_counts_as_one() {
    let mut c = config();
    c.fd_max = 0;
    assert_eq!(c.policy().max_open_handles, 1);
}

#[test]
fn no_root_means_the_current_directory() {
    assert_eq!(config().scan_roots(), vec![String::from(".")]);
    let mut c = config();
    c.roots = Some(Vec::new());
    assert_eq!(c.scan_roots(), vec![String::from(".")]);
}

#[test]
fn roots_keep_their_order() {
    let mut c = config();
    c.roots = Some(vec![String::from("b"), String::from("a"), String::from("b")]);
    assert_eq!(c.scan_roots(), vec![String::from("b"), String::from("a"), String::from("b")]);
}

#[test]
fn depth_bounds_are_decided() {
    let policy = TraversalPolicy {
        follow_symlinks: false,
        min_depth: 1,
        max_depth: Some(3),
        max_open_handles: 1,
        stay_on_filesystem: false,
    };
    assert!(!policy.yields_depth(0));
    assert!(policy.yields_depth(1));
    assert!(policy.yields_depth(3));
    assert!(!policy.yields_depth(4));
    assert!(policy.allows_depth(3));
    assert!(!policy.allows_depth(4));
    assert!(policy.allows_below(2));
    assert!(!policy.allows_below(3));
    assert!(policy.is_satisfiable());
}

#[test]
fn unbounded_depth_allows_everything() {
    let policy = config().policy();
    assert!(policy.allows_depth(usize::MAX));
    assert!(policy.allows_below(usize::MAX));
    assert!(policy.yields_depth(0));
    assert!(policy.is_satisfiable());
}

#[test]
fn contrary_bounds_are_not_satisfiable() {
    let mut c = config();
    c.min_depth = Some(3);
    c.max_depth = Some(2);
    assert!(!c.policy().is_satisfiable());
    c.max_depth = Some(3);
    assert!(c.policy().is_satisfiable());
}

#[test]
fn names_with_a_leading_dot_are_hidden() {
    assert!(is_hidden(&entry(Some(".hidden"))));
    assert!(is_hidden(&entry(Some("."))));
    assert!(is_hidden(&entry(Some(".."))));
    assert!(is_hidden(&entry(Some(".a.jpg"))));
}

#[test]
fn other_names_are_not_hidden() {
    assert!(!is_hidden(&entry(Some("a.jpg"))));
    assert!(!is_hidden(&entry(Some("a.b"))));
    assert!(!is_hidden(&entry(Some(""))));
    assert!(!is_hidden(&entry(Some("\u{e9}.png"))));
}

#[test]
fn a_name_that_is_not_unicode_is_not_hidden() {
    assert!(!is_hidden(&entry(None)));
    assert!(!name_is_hidden(&None));
    assert!(name_is_hidden(&Some(String::from(".x"))));
}

#[test]
fn one_and_two_dots_name_places() {
    assert!(name_is_place(&Some(String::from("."))));
    assert!(name_is_place(&Some(String::from(".."))));
    assert!(!name_is_place(&Some(String::from("..."))));
    assert!(!name_is_place(&Some(String::from(".a"))));
    assert!(!name_is_place(&Some(String::from("a."))));
    assert!(!name_is_place(&Some(String::new())));
    assert!(!name_is_place(&None));
}

#[test]
fn a_place_is_passed_over_below_the_root_only() {
    let mut root = entry(Some("."));
    root.depth = 0;
    assert!(is_hidden(&root));
    assert!(!is_passed_over(&root));
    root.file_name = Some(String::from(".."));
    assert!(!is_passed_over(&root));
    root.file_name = Some(String::from(".photos"));
    assert!(is_passed_over(&root));
    assert!(is_passed_over(&entry(Some("."))));
    assert!(is_passed_over(&entry(Some(".git"))));
    assert!(!is_passed_over(&entry(Some("a.jpg"))));
    assert!(!is_passed_over(&entry(None)));
}
