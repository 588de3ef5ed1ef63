//! Walks over directory trees, one node at a time.
use pacpurge::capability::{
    disk_size, sorted_listing, sudo_home, timestamp, Entry, NewestWalk, Node, Output, SuffixWalk,
    TreeWalk, Usage, Visit,
};

/// A regular file of so many blocks.
fn file(inode: u64, blocks: u64) -> Node {
    Node { is_symlink: false, is_dir: false, device: 1, inode, links: 1, blocks, mtime: 0 }
}

/// A directory.
fn directory(inode: u64) -> Node {
    Node { is_dir: true, ..file(inode, 8) }
}

#[test]
fn blocks_are_counted_in_512_byte_units() {
    assert_eq!(disk_size(3), 1_536);
    assert_eq!(disk_size(u64::MAX), u64::MAX);
}

#[test]
fn a_tree_sums_its_files_and_goes_below_directories() {
    let mut walk = TreeWalk::new(Some(1), 10);
    assert_eq!(walk.visit(Some(directory(1))), Visit::Descend);
    assert_eq!(walk.visit(Some(file(2, 4))), Visit::Skip);
    assert_eq!(walk.visit(None), Visit::Skip);
    assert_eq!(walk.visit(Some(file(3, 2))), Visit::Skip);
    assert_eq!(walk.usage, Usage { bytes: 3_072, files: 2, truncated: false });
}

#[test]
fn links_and_other_filesystems_are_left_alone() {
    let mut walk = TreeWalk::new(Some(1), 10);
    assert_eq!(walk.visit(Some(Node { is_symlink: true, ..directory(1) })), Visit::Skip);
    assert_eq!(walk.visit(Some(Node { device: 2, ..directory(1) })), Visit::Skip);
    assert_eq!(walk.visit(Some(Node { device: 2, ..file(4, 8) })), Visit::Skip);
    assert_eq!(walk.usage, Usage::default());

    // Where the filesystem of the root is unknown, nothing is outside it.
    let mut anywhere = TreeWalk::new(None, 10);
    assert_eq!(anywhere.visit(Some(Node { device: 2, ..directory(1) })), Visit::Descend);
}

#[test]
fn a_hard_linked_file_is_counted_once() {
    let mut walk = TreeWalk::new(Some(1), 10);
    let linked = Node { links: 2, ..file(7, 2) };
    walk.visit(Some(linked));
    walk.visit(Some(linked));
    assert_eq!(walk.usage.bytes, 1_024);
    assert_eq!(walk.usage.files, 1);
    walk.visit(Some(Node { links: 2, ..file(8, 2) }));
    assert_eq!(walk.usage.files, 2);
}

#[test]
fn a_walk_stops_at_its_budget() {
    let mut walk = TreeWalk::new(Some(1), 1);
    assert_eq!(walk.visit(Some(file(1, 1))), Visit::Skip);
    assert_eq!(walk.visit(Some(file(2, 1))), Visit::Stop);
    assert_eq!(walk.usage, Usage { bytes: 512, files: 1, truncated: true });
}

#[test]
fn the_newest_write_is_found_with_its_path() {
    let mut walk = NewestWalk::new("/home/me/.config/vlc", Some(100), 2);
    assert_eq!(walk.best, Some((100, "/home/me/.config/vlc".to_owned())));
    let late = Node { mtime: 300, ..directory(1) };
    assert_eq!(walk.visit("/home/me/.config/vlc/a", Some(late)), Visit::Descend);
    let early = Node { mtime: 300, ..file(2, 1) };
    assert_eq!(walk.visit("/home/me/.config/vlc/b", Some(early)), Visit::Skip);
    assert_eq!(walk.best, Some((300, "/home/me/.config/vlc/a".to_owned())));
    assert_eq!(walk.visit("/home/me/.config/vlc/c", Some(late)), Visit::Stop);

    let mut unreadable = NewestWalk::new("/gone", None, 2);
    assert_eq!(unreadable.visit("/gone/x", Some(Node { is_symlink: true, ..late })), Visit::Skip);
    assert_eq!(unreadable.best, None);
}

#[test]
fn files_are_found_by_their_ending_and_sorted_by_path() {
    let suffixes = vec![".pacnew".to_owned(), ".pacsave".to_owned()];
    let mut walk = SuffixWalk::new(&suffixes, 10);
    walk.visit("/etc/z.pacnew", Some("z.pacnew"), Some(file(1, 2)));
    walk.visit("/etc/a.pacsave", Some("a.pacsave"), Some(file(2, 4)));
    walk.visit("/etc/passwd", Some("passwd"), Some(file(3, 8)));
    walk.visit("/etc/odd", None, Some(file(4, 8)));
    assert_eq!(walk.visit("/etc/d.pacnew", Some("d.pacnew"), Some(directory(5))), Visit::Descend);
    assert_eq!(
        walk.finish(),
        vec![("/etc/a.pacsave".to_owned(), 2_048), ("/etc/z.pacnew".to_owned(), 1_024)]
    );
}

#[test]
fn listings_are_sorted_by_name() {
    let entry = |name: &str| Entry {
        name: name.to_owned(),
        path: format!("/d/{name}"),
        is_dir: false,
    };
    let names: Vec<String> = sorted_listing(&vec![entry("b"), entry("B"), entry("a")])
        .into_iter()
        .map(|entry| entry.name)
        .collect();
    assert_eq!(names, vec!["B".to_owned(), "a".to_owned(), "b".to_owned()]);
}

#[test]
fn only_a_clean_exit_is_a_success() {
    let output = |code| Output { code, stdout: String::new(), stderr: String::new() };
    assert!(output(Some(0)).ok());
    assert!(!output(Some(1)).ok());
    assert!(!output(None).ok());
}

#[test]
fn an_unreadable_clock_reads_zero() {
    assert_eq!(timestamp(Some(1_700_000_000)), 1_700_000_000);
    assert_eq!(timestamp(Some(u64::MAX)), 0);
    assert_eq!(timestamp(None), 0);
    assert_eq!(sudo_home("me"), "/home/me");
}
