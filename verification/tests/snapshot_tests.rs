use rdedup::entry::{DirectoryEntry, FileId, TraversalError, WalkItem};
use rdedup::fingerprint::PixelGrid;
use rdedup::pipeline::{diagnostics_of, records_of, Effect, ResultRecord};
use rdedup::policy::TraversalPolicy;
use rdedup::snapshot::{scan_tree, FsNode, FsSlot, Trace};
use rdedup::walker::EntryReport;

const BLACK: &str = "Av//////////";

fn policy() -> TraversalPolicy {
    TraversalPolicy {
        follow_symlinks: false,
        min_depth: 0,
        max_depth: None,
        max_open_handles: 32,
        stay_on_filesystem: false,
    }
}

fn name_of(path: &str) -> String {
    match path.rfind('/') {
        Some(at) => String::from(&path[at + 1..]),
        None => String::from(path),
    }
}

fn node(path: &str, is_dir: bool, inode: u64, children: Vec<FsSlot>) -> FsNode {
    FsNode {
        report: EntryReport {
            path: String::from(path),
            file_name: Some(name_of(path)),
            is_symlink: false,
            is_dir,
            id: FileId { device: 1, inode },
            link_error: None,
        },
        open_error: None,
        children,
        decoded: Err(format!("{} is no image", path)),
        canonical: Ok(format!("/abs{}", path)),
    }
}

fn dir(path: &str, inode: u64, children: Vec<FsSlot>) -> FsSlot {
    FsSlot::Node(node(path, true, inode, children))
}

fn image(path: &str, inode: u64) -> FsSlot {
    let mut file = node(path, false, inode, Vec::new());
    file.decoded = Ok(PixelGrid::new(8, 8, vec![0u8; 64]).unwrap());
    FsSlot::Node(file)
}

fn text(path: &str, inode: u64) -> FsSlot {
    FsSlot::Node(node(path, false, inode, Vec::new()))
}

fn link_to_dir(path: &str, target: u64, children: Vec<FsSlot>) -> FsSlot {
    let mut link = node(path, true, target, children);
    link.report.is_symlink = true;
    FsSlot::Node(link)
}

fn record(path: &str) -> ResultRecord {
    ResultRecord { fingerprint: String::from(BLACK), canonical_path: format!("/abs{}", path) }
}

fn records(trace: &Trace) -> Vec<ResultRecord> {
    records_of(&trace.effects())
}

fn diagnostics(trace: &Trace) -> Vec<String> {
    diagnostics_of(&trace.effects())
}

fn yielded_paths(trace: &Trace) -> Vec<String> {
    let mut paths = Vec::new();
    for event in &trace.events {
        match &event.item {
            WalkItem::Entry(entry) => paths.push(entry.path.clone()),
            WalkItem::Failure(_) => paths.push(String::from("!")),
        }
    }
    paths
}

fn lines(trace: &Trace) -> Vec<String> {
    let mut lines = Vec::new();
    for effect in trace.effects() {
        if let Some(line) = effect.line() {
            lines.push(line);
        }
    }
    lines
}

fn sample() -> FsNode {
    node(
        "/r",
        true,
        1,
        vec![
            image("/r/a.jpg", 2),
            dir("/r/.hidden", 3, vec![image("/r/.hidden/b.jpg", 4)]),
            text("/r/c.txt", 5),
        ],
    )
}

fn chain(depth: usize) -> FsNode {
    let mut path = String::from("/r");
    let mut paths = vec![path.clone()];
    for level in 0..depth {
        path = format!("{}/d{}", path, level);
        paths.push(path.clone());
    }
    let mut inner: Option<FsSlot> = None;
    for (level, here) in paths.iter().enumerate().rev() {
        let mut children = Vec::new();
        children.push(image(&format!("{}/before.png", here), 1000 + level as u64));
        if let Some(child) = inner.take() {
            children.push(child);
        }
        children.push(image(&format!("{}/after.png", here), 2000 + level as u64));
        inner = Some(dir(here, level as u64 + 1, children));
    }
    match inner.unwrap() {
        FsSlot::Node(root) => root,
        FsSlot::Unreadable(_) => unreachable!(),
    }
}

#[test]
fn an_image_is_recorded_a_text_is_diagnosed_a_hidden_directory_is_silent() {
    let trace = scan_tree(&sample(), policy());
    assert_eq!(records(&trace), vec![record("/r/a.jpg")]);
    assert_eq!(diagnostics(&trace), vec![String::from("/r/c.txt is no image")]);
    assert_eq!(
        lines(&trace),
        vec![
            String::from("Av//////////\t/abs/r/a.jpg\n"),
            String::from("ERROR: /r/c.txt is no image\n"),
        ]
    );
    assert_eq!(
        trace.effects(),
        vec![
            Effect::Write(record("/r/a.jpg")),
            Effect::Flush,
            Effect::Report(String::from("/r/c.txt is no image")),
        ]
    );
    assert_eq!(yielded_paths(&trace), vec!["/r", "/r/a.jpg", "/r/c.txt"]);
}

#[test]
fn events_pair_each_item_with_its_effects() {
    let trace = scan_tree(&sample(), policy());
    assert_eq!(trace.events.len(), 3);
    assert_eq!(
        trace.events[0].item,
        WalkItem::Entry(DirectoryEntry {
            path: String::from("/r"),
            depth: 0,
            is_directory: true,
            file_name: Some(String::from("r")),
        })
    );
    assert_eq!(trace.events[0].effects, Vec::new());
    assert_eq!(trace.events[1].effects, vec![Effect::Write(record("/r/a.jpg"))]);
    assert_eq!(trace.events[2].effects.len(), 2);
}

#[test]
fn a_greatest_depth_of_zero_reaches_no_image() {
    let root = node("/r", true, 1, vec![dir("/r/sub", 2, vec![image("/r/sub/a.jpg", 3)])]);
    let mut bounded = policy();
    bounded.max_depth = Some(0);
    let trace = scan_tree(&root, bounded);
    assert_eq!(records(&trace), Vec::new());
    assert_eq!(diagnostics(&trace), Vec::<String>::new());
    assert_eq!(yielded_paths(&trace), vec!["/r"]);
    assert_eq!(trace.peak_handles, 0);
}

#[test]
fn a_loop_is_reported_once_and_the_rest_is_scanned() {
    let root = node(
        "/r",
        true,
        1,
        vec![
            image("/r/a.jpg", 2),
            dir("/r/d", 3, vec![link_to_dir("/r/d/up", 1, Vec::new()), image("/r/d/b.jpg", 4)]),
            image("/r/z.jpg", 5),
        ],
    );
    let mut following = policy();
    following.follow_symlinks = true;
    let trace = scan_tree(&root, following);
    assert_eq!(
        diagnostics(&trace),
        vec![String::from("File system loop found: /r/d/up points to an ancestor /r")]
    );
    assert_eq!(records(&trace), vec![record("/r/a.jpg"), record("/r/d/b.jpg"), record("/r/z.jpg")]);
}

#[test]
fn a_link_to_a_directory_is_a_file_while_links_are_not_followed() {
    let root = node(
        "/r",
        true,
        1,
        vec![link_to_dir("/r/l", 9, vec![image("/r/l/in.jpg", 10)]), image("/r/a.jpg", 2)],
    );
    let trace = scan_tree(&root, policy());
    assert_eq!(yielded_paths(&trace), vec!["/r", "/r/l", "/r/a.jpg"]);
    assert_eq!(diagnostics(&trace), vec![String::from("/r/l is no image")]);
    assert_eq!(records(&trace), vec![record("/r/a.jpg")]);
    let mut following = policy();
    following.follow_symlinks = true;
    let followed = scan_tree(&root, following);
    assert_eq!(records(&followed), vec![record("/r/l/in.jpg"), record("/r/a.jpg")]);
    assert_eq!(diagnostics(&followed), Vec::<String>::new());
}

#[test]
fn entries_above_the_least_depth_give_no_record() {
    let root = node(
        "/r",
        true,
        1,
        vec![image("/r/top.jpg", 2), dir("/r/d", 3, vec![image("/r/d/deep.jpg", 4)])],
    );
    let mut bounded = policy();
    bounded.min_depth = 2;
    let trace = scan_tree(&root, bounded);
    assert_eq!(records(&trace), vec![record("/r/d/deep.jpg")]);
    assert_eq!(yielded_paths(&trace), vec!["/r/d/deep.jpg"]);
}

#[test]
fn no_record_comes_from_below_the_greatest_depth() {
    let root = chain(4);
    let mut bounded = policy();
    bounded.max_depth = Some(2);
    let trace = scan_tree(&root, bounded);
    assert_eq!(
        records(&trace),
        vec![
            record("/r/before.png"),
            record("/r/d0/before.png"),
            record("/r/d0/after.png"),
            record("/r/after.png"),
        ]
    );
    for event in &trace.events {
        if let WalkItem::Entry(entry) = &event.item {
            assert!(entry.depth <= 2);
        }
    }
}

#[test]
fn contrary_bounds_give_an_empty_scan() {
    let mut bounded = policy();
    bounded.min_depth = 2;
    bounded.max_depth = Some(1);
    let trace = scan_tree(&sample(), bounded);
    assert_eq!(trace.events.len(), 0);
    assert_eq!(trace.effects(), Vec::new());
}

#[test]
fn the_handle_budget_holds_on_a_tree_deeper_than_the_budget() {
    let root = chain(6);
    let everything = records(&scan_tree(&root, policy()));
    assert_eq!(everything.len(), 14);
    for budget in 1..9usize {
        let mut tight = policy();
        tight.max_open_handles = budget;
        let trace = scan_tree(&root, tight);
        assert!(trace.peak_handles <= budget);
        assert_eq!(trace.peak_handles, budget.min(7));
        assert_eq!(records(&trace), everything);
    }
}

#[test]
fn records_come_in_the_order_of_discovery() {
    let trace = scan_tree(&chain(2), policy());
    assert_eq!(
        records(&trace),
        vec![
            record("/r/before.png"),
            record("/r/d0/before.png"),
            record("/r/d0/d1/before.png"),
            record("/r/d0/d1/after.png"),
            record("/r/d0/after.png"),
            record("/r/after.png"),
        ]
    );
}

#[test]
fn one_unreadable_entry_adds_one_diagnostic_and_changes_nothing_else() {
    let before = scan_tree(&chain(3), policy());
    let mut faulty = chain(3);
    match &mut faulty.children[1] {
        FsSlot::Node(d0) => d0.children.insert(1, FsSlot::Unreadable(String::from("denied"))),
        FsSlot::Unreadable(_) => unreachable!(),
    }
    let after = scan_tree(&faulty, policy());
    assert_eq!(records(&after), records(&before));
    assert_eq!(diagnostics(&before), Vec::<String>::new());
    assert_eq!(diagnostics(&after), vec![String::from("denied")]);
    assert_eq!(after.events.len(), before.events.len() + 1);
    assert_eq!(
        after.events[4].item,
        WalkItem::Failure(TraversalError { message: String::from("denied") })
    );
    let mut rest = after.events.clone();
    rest.remove(4);
    assert_eq!(rest, before.events);
}

#[test]
fn an_unreadable_entry_in_a_hidden_directory_is_never_seen() {
    let before = scan_tree(&sample(), policy());
    let mut faulty = sample();
    match &mut faulty.children[1] {
        FsSlot::Node(hidden) => hidden.children.push(FsSlot::Unreadable(String::from("denied"))),
        FsSlot::Unreadable(_) => unreachable!(),
    }
    let after = scan_tree(&faulty, policy());
    assert_eq!(after.events, before.events);
}

#[test]
fn a_directory_that_does_not_open_costs_one_diagnostic() {
    let mut closed = node("/r/d", true, 3, vec![image("/r/d/in.jpg", 4)]);
    closed.open_error = Some(String::from("permission denied: /r/d"));
    let root = node("/r", true, 1, vec![image("/r/a.jpg", 2), FsSlot::Node(closed), image("/r/z.jpg", 5)]);
    let trace = scan_tree(&root, policy());
    assert_eq!(records(&trace), vec![record("/r/a.jpg"), record("/r/z.jpg")]);
    assert_eq!(diagnostics(&trace), vec![String::from("permission denied: /r/d")]);
    assert_eq!(yielded_paths(&trace), vec!["/r", "/r/a.jpg", "!", "/r/z.jpg"]);
}

#[test]
fn a_root_that_does_not_open_costs_one_diagnostic() {
    let mut root = sample();
    root.open_error = Some(String::from("denied"));
    let trace = scan_tree(&root, policy());
    assert_eq!(diagnostics(&trace), vec![String::from("denied")]);
    assert_eq!(records(&trace), Vec::new());
}

#[test]
fn the_current_directory_is_scanned() {
    let root = node(".", true, 1, vec![image("./a.jpg", 2), dir("./.git", 3, vec![image("./.git/x.png", 4)])]);
    let trace = scan_tree(&root, policy());
    assert_eq!(yielded_paths(&trace), vec![".", "./a.jpg"]);
    assert_eq!(records(&trace), vec![record("./a.jpg")]);
    assert_eq!(lines(&trace), vec![String::from("Av//////////\t/abs./a.jpg\n")]);
    assert_eq!(diagnostics(&trace), Vec::<String>::new());
}

#[test]
fn the_directory_above_is_scanned() {
    let mut root = node("..", true, 1, vec![image("../a.jpg", 2)]);
    root.report.file_name = Some(String::from(".."));
    let trace = scan_tree(&root, policy());
    assert_eq!(records(&trace), vec![record("../a.jpg")]);
}

#[test]
fn a_root_with_a_hidden_name_is_passed_over() {
    let root = node("/home/.photos", true, 1, vec![image("/home/.photos/a.jpg", 2)]);
    let trace = scan_tree(&root, policy());
    assert_eq!(trace.events.len(), 0);
    assert_eq!(trace.peak_handles, 0);
}

#[test]
fn a_root_that_is_an_image_is_recorded() {
    let root = match image("/r/a.jpg", 2) {
        FsSlot::Node(file) => file,
        FsSlot::Unreadable(_) => unreachable!(),
    };
    let trace = scan_tree(&root, policy());
    assert_eq!(records(&trace), vec![record("/r/a.jpg")]);
}

#[test]
fn a_path_that_does_not_resolve_costs_the_record() {
    let mut file = match image("/r/a.jpg", 2) {
        FsSlot::Node(file) => file,
        FsSlot::Unreadable(_) => unreachable!(),
    };
    file.canonical = Err(String::from("vanished"));
    let root = node("/r", true, 1, vec![FsSlot::Node(file), image("/r/b.jpg", 3)]);
    let trace = scan_tree(&root, policy());
    assert_eq!(records(&trace), vec![record("/r/b.jpg")]);
    assert_eq!(diagnostics(&trace), vec![String::from("vanished")]);
}

#[test]
fn another_device_is_left_alone_while_staying_on_one() {
    let mut mount = node("/r/mnt", true, 3, vec![image("/r/mnt/far.jpg", 4)]);
    mount.report.id.device = 2;
    let root = node("/r", true, 1, vec![FsSlot::Node(mount), image("/r/near.jpg", 5)]);
    let mut staying = policy();
    staying.stay_on_filesystem = true;
    let kept = scan_tree(&root, staying);
    assert_eq!(records(&kept), vec![record("/r/near.jpg")]);
    assert_eq!(diagnostics(&kept), Vec::<String>::new());
    assert_eq!(yielded_paths(&kept), vec!["/r", "/r/mnt", "/r/near.jpg"]);
    let roaming = scan_tree(&root, policy());
    assert_eq!(records(&roaming), vec![record("/r/mnt/far.jpg"), record("/r/near.jpg")]);
}

#[test]
fn every_diagnostic_follows_a_flush() {
    let mut faulty = chain(2);
    faulty.children.insert(0, FsSlot::Unreadable(String::from("first")));
    faulty.children.push(text("/r/notes.txt", 77));
    faulty.children.push(FsSlot::Unreadable(String::from("last")));
    let effects = scan_tree(&faulty, policy()).effects();
    let mut reports = 0;
    for (at, effect) in effects.iter().enumerate() {
        if let Effect::Report(_) = effect {
            reports += 1;
            assert!(at > 0);
            assert_eq!(effects[at - 1], Effect::Flush);
        }
    }
    assert_eq!(reports, 3);
}
