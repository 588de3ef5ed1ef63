//! What is read back from the outside world, and the decisions in between.
//!
//! Every filesystem read, directory walk, `stat` and subprocess happens
//! outside this library. What comes back is plain data, and this module holds
//! its types. A walk over a directory tree alternates reading and deciding;
//! the deciding part is a state here, which is shown one node at a time and
//! says how to go on.
use std::collections::BTreeSet;

use vstd::prelude::*;

use crate::path;
use crate::path::{join, parts, parts_at_most};
use crate::sort;
use crate::sort::{positions_by_text, sorted_positions};
use crate::text;
use crate::text::{copy_texts, ends_with};

verus! {

/// Metadata read back from a single path.
#[derive(Clone, Copy, Debug, PartialEq, Eq, Structural)]
pub struct Stat {
    /// Apparent size in bytes.
    pub size: u64,
    /// Actual space used on disk, from the allocated block count.
    pub disk_size: u64,
    /// Last access time, Unix seconds.
    pub atime: i64,
    /// Last modification time, Unix seconds.
    pub mtime: i64,
    /// Whether the path is a directory.
    pub is_dir: bool,
    /// Whether the path is a symbolic link.
    pub is_symlink: bool,
}

/// The bytes that a number of 512-byte blocks take up.
pub open spec fn block_bytes(blocks: u64) -> u64 {
    if blocks * 512 > u64::MAX {
        u64::MAX
    } else {
        (blocks * 512) as u64
    }
}

/// The space used on disk, from the allocated block count.
///
/// Blocks are counted in 512-byte units regardless of filesystem block size,
/// which is what `du` reports and what actually gets freed.
pub fn disk_size(blocks: u64) -> (r: u64)
    ensures
        r == block_bytes(blocks),
{
    match blocks.checked_mul(512) {
        Some(bytes) => bytes,
        None => u64::MAX,
    }
}

/// One entry from a directory listing.
#[derive(Debug, PartialEq, Eq)]
pub struct Entry {
    /// The entry's own name, without any directory part.
    pub name: String,
    /// Full path to the entry.
    pub path: String,
    /// Whether the entry is a directory.
    pub is_dir: bool,
}

/// The view of an [`Entry`].
#[verifier::ext_equal]
pub struct EntryView {
    /// See [`Entry::name`].
    pub name: Seq<char>,
    /// See [`Entry::path`].
    pub path: Seq<char>,
    /// See [`Entry::is_dir`].
    pub is_dir: bool,
}

impl View for Entry {
    type V = EntryView;

    open spec fn view(&self) -> EntryView {
        EntryView { name: self.name@, path: self.path@, is_dir: self.is_dir }
    }
}

impl Clone for Entry {
    fn clone(&self) -> (r: Entry)
        ensures
            r@ == self@,
    {
        Entry { name: self.name.clone(), path: self.path.clone(), is_dir: self.is_dir }
    }
}

/// The views of a directory listing.
pub open spec fn listing_views(entries: Seq<Entry>) -> Seq<EntryView> {
    Seq::new(entries.len(), |i: int| entries[i]@)
}

/// The names in a directory listing.
pub open spec fn listing_names(entries: Seq<EntryView>) -> Seq<Seq<char>> {
    Seq::new(entries.len(), |i: int| entries[i].name)
}

/// A directory listing sorted by name, for deterministic output.
pub fn sorted_listing(entries: &Vec<Entry>) -> (r: Vec<Entry>)
    ensures
        listing_views(r@) == sort::taken_by(
            listing_views(entries@),
            sort::text_positions(listing_names(listing_views(entries@))),
        ),
{
    let ghost all = listing_views(entries@);
    let mut names: Vec<&str> = Vec::new();
    let mut i: usize = 0;
    while i < entries.len()
        invariant
            i <= entries.len(),
            names.len() == i,
            all == listing_views(entries@),
            forall|k: int| 0 <= k < i ==> #[trigger] names@[k]@ == all[k].name,
        decreases entries.len() - i,
    {
        names.push(entries[i].name.as_str());
        i += 1;
    }
    assert(text::str_texts(names@) =~= listing_names(all));
    let places = positions_by_text(&names);
    let mut out: Vec<Entry> = Vec::new();
    let mut k: usize = 0;
    while k < places.len()
        invariant
            k <= places.len(),
            all == listing_views(entries@),
            sort::is_listing(places@, entries@.len()),
            out.len() == k,
            forall|j: int| 0 <= j < k ==> #[trigger] out@[j]@ == all[places@[j] as int],
        decreases places.len() - k,
    {
        out.push(entries[places[k]].clone());
        k += 1;
    }
    assert(listing_views(out@) =~= sort::taken_by(all, places@));
    out
}

/// Total space taken by a directory tree.
#[derive(Clone, Copy, Debug, PartialEq, Eq, Structural)]
pub struct Usage {
    /// Bytes actually allocated on disk.
    pub bytes: u64,
    /// Number of regular files seen.
    pub files: usize,
    /// Whether the walk stopped early at the node budget.
    pub truncated: bool,
}

impl Default for Usage {
    fn default() -> (r: Usage)
        ensures
            r == (Usage { bytes: 0, files: 0, truncated: false }),
    {
        Usage { bytes: 0, files: 0, truncated: false }
    }
}

/// The result of running a subprocess to completion.
#[derive(Clone, Debug, PartialEq, Eq)]
pub struct Output {
    /// Exit status, or `None` if the process was killed by a signal.
    pub code: Option<i32>,
    /// Captured standard output, lossily decoded as UTF-8.
    pub stdout: String,
    /// Captured standard error, lossily decoded as UTF-8.
    pub stderr: String,
}

impl Output {
    /// Whether the process exited successfully.
    pub fn ok(&self) -> (r: bool)
        ensures
            r == (self.code == Some(0i32)),
    {
        match self.code {
            Some(code) => code == 0,
            None => false,
        }
    }
}

/// The time in Unix seconds, from the seconds passed since the epoch. A clock
/// that cannot say reads zero.
pub fn timestamp(elapsed: Option<u64>) -> (r: i64)
    ensures
        r == (match elapsed {
            Some(seconds) => if seconds <= i64::MAX {
                seconds as i64
            } else {
                0
            },
            None => 0,
        }),
{
    match elapsed {
        Some(seconds) => if seconds <= i64::MAX as u64 {
            seconds as i64
        } else {
            0
        },
        None => 0,
    }
}

/// The home directory of the user behind `sudo`, to be looked for first.
pub fn sudo_home(user: &str) -> (r: String)
    ensures
        r@ == path::join_path("/home"@, user@),
{
    join("/home", user)
}

// ---------------------------------------------------------------------------
// Walks
// ---------------------------------------------------------------------------

/// What a walk sees of one node of a directory tree.
#[derive(Clone, Copy, Debug, PartialEq, Eq, Structural)]
pub struct Node {
    /// Whether it is a symbolic link.
    pub is_symlink: bool,
    /// Whether it is a directory.
    pub is_dir: bool,
    /// The filesystem it lies on.
    pub device: u64,
    /// Its number on that filesystem.
    pub inode: u64,
    /// How many names it has.
    pub links: u64,
    /// How many 512-byte blocks it takes up.
    pub blocks: u64,
    /// When it was last modified, Unix seconds.
    pub mtime: i64,
}

/// How a walk goes on.
#[derive(Clone, Copy, Debug, PartialEq, Eq, Structural)]
pub enum Visit {
    /// The budget is used up: no further node.
    Stop,
    /// To the next node, without looking below this one.
    Skip,
    /// Below this one too.
    Descend,
}

/// One more than `n`, as far as numbers go.
pub open spec fn one_more(n: usize) -> usize {
    if n == usize::MAX {
        n
    } else {
        (n + 1) as usize
    }
}

/// A number that tells the nodes of all filesystems apart.
pub open spec fn node_number(device: u64, inode: u64) -> u128 {
    (device * 0x1_0000_0000_0000_0000 + inode) as u128
}

/// Two nodes with the same number are the same node.
pub proof fn node_numbers_are_unique(a: Node, b: Node)
    requires
        node_number(a.device, a.inode) == node_number(b.device, b.inode),
    ensures
        a.device == b.device,
        a.inode == b.inode,
{
}

/// A walk that sums the disk usage of a directory tree.
///
/// Stays on one filesystem, never follows symbolic links, and stops after a
/// budget of entries so that pointing it at a home directory cannot hang the
/// interface. Hard-linked files are counted once.
pub struct TreeWalk {
    /// The filesystem that the tree lies on, where it could be read.
    pub device: Option<u64>,
    /// How many entries the walk may visit.
    pub budget: usize,
    /// How many it has visited.
    pub visited: usize,
    /// The hard-linked files that were counted.
    pub counted: BTreeSet<u128>,
    /// What was found so far.
    pub usage: Usage,
}

/// The view of a [`TreeWalk`].
#[verifier::ext_equal]
pub struct TreeView {
    /// See [`TreeWalk::device`].
    pub device: Option<u64>,
    /// See [`TreeWalk::budget`].
    pub budget: usize,
    /// See [`TreeWalk::visited`].
    pub visited: usize,
    /// See [`TreeWalk::counted`].
    pub counted: Set<u128>,
    /// See [`TreeWalk::usage`].
    pub usage: Usage,
}

impl View for TreeWalk {
    type V = TreeView;

    open spec fn view(&self) -> TreeView {
        TreeView {
            device: self.device,
            budget: self.budget,
            visited: self.visited,
            counted: self.counted@,
            usage: self.usage,
        }
    }
}

impl TreeView {
    /// A walk that has seen nothing yet.
    pub open spec fn fresh(device: Option<u64>, budget: usize) -> TreeView {
        TreeView {
            device,
            budget,
            visited: 0,
            counted: Set::empty(),
            usage: Usage { bytes: 0, files: 0, truncated: false },
        }
    }

    /// Whether a node lies on the filesystem of the tree.
    pub open spec fn is_inside(self, node: Node) -> bool {
        self.device is Some ==> self.device == Some(node.device)
    }

    /// Whether a node was counted under another name.
    pub open spec fn is_counted(self, node: Node) -> bool {
        node.links > 1 && self.counted.contains(node_number(node.device, node.inode))
    }

    /// The walk with a file counted.
    pub open spec fn counting(self, node: Node) -> TreeView {
        TreeView {
            counted: if node.links > 1 {
                self.counted.insert(node_number(node.device, node.inode))
            } else {
                self.counted
            },
            usage: Usage {
                bytes: crate::number::saturated(
                    (self.usage.bytes + block_bytes(node.blocks)) as nat,
                ),
                files: one_more(self.usage.files),
                truncated: self.usage.truncated,
            },
            ..self
        }
    }

    /// The walk after one more node, which could be read or not, and how it
    /// goes on.
    pub open spec fn step(self, node: Option<Node>) -> (TreeView, Visit) {
        let here = TreeView { visited: one_more(self.visited), ..self };
        if here.visited > self.budget {
            (
                TreeView { usage: Usage { truncated: true, ..self.usage }, ..here },
                Visit::Stop,
            )
        } else {
            match node {
                None => (here, Visit::Skip),
                Some(node) => if node.is_symlink || !self.is_inside(node) {
                    (here, Visit::Skip)
                } else if node.is_dir {
                    (here, Visit::Descend)
                } else if self.is_counted(node) {
                    (here, Visit::Skip)
                } else {
                    (here.counting(node), Visit::Skip)
                },
            }
        }
    }
}

impl TreeWalk {
    /// Start a walk over a tree on the given filesystem.
    pub fn new(device: Option<u64>, budget: usize) -> (r: TreeWalk)
        ensures
            r@ == TreeView::fresh(device, budget),
    {
        TreeWalk {
            device,
            budget,
            visited: 0,
            counted: BTreeSet::new(),
            usage: Usage { bytes: 0, files: 0, truncated: false },
        }
    }

    /// Take one more node into account.
    pub fn visit(&mut self, node: Option<Node>) -> (r: Visit)
        ensures
            (final(self)@, r) == old(self)@.step(node),
    {
        if self.visited < usize::MAX {
            self.visited += 1;
        }
        if self.visited > self.budget {
            self.usage.truncated = true;
            return Visit::Stop;
        }
        let node = match node {
            Some(node) => node,
            None => {
                return Visit::Skip;
            },
        };
        if node.is_symlink {
            return Visit::Skip;
        }
        if let Some(device) = self.device {
            if device != node.device {
                return Visit::Skip;
            }
        }
        if node.is_dir {
            return Visit::Descend;
        }
        if node.links > 1 {
            let number: u128 = node.device as u128 * 0x1_0000_0000_0000_0000 + node.inode as u128;
            if self.counted.contains(&number) {
                return Visit::Skip;
            }
            self.counted.insert(number);
        }
        self.usage.bytes = self.usage.bytes.saturating_add(disk_size(node.blocks));
        if self.usage.files < usize::MAX {
            self.usage.files += 1;
        }
        Visit::Skip
    }
}

/// A hard-linked file is counted once: met again under another name, it adds
/// nothing.
pub proof fn hard_links_are_counted_once(walk: TreeView, first: Node, again: Node)
    requires
        !first.is_symlink,
        !first.is_dir,
        first.links > 1,
        walk.is_inside(first),
        again.links > 1,
        again.device == first.device,
        again.inode == first.inode,
        !again.is_dir,
        walk.step(Some(first)).1 != Visit::Stop,
        walk.step(Some(first)).0.step(Some(again)).1 != Visit::Stop,
    ensures
        walk.step(Some(first)).0.step(Some(again)).0.usage == walk.step(Some(first)).0.usage,
{
}

/// A walk stays on its filesystem and follows no symbolic link: a node that is
/// elsewhere or a link is neither counted nor entered.
pub proof fn walks_stay_inside(walk: TreeView, node: Node)
    requires
        node.is_symlink || !walk.is_inside(node),
    ensures
        walk.step(Some(node)).1 != Visit::Descend,
        walk.step(Some(node)).0.usage.bytes == walk.usage.bytes,
        walk.step(Some(node)).0.usage.files == walk.usage.files,
{
}

/// A walk visits no more nodes than its budget, and says so when it stops.
pub proof fn walks_stop_at_their_budget(walk: TreeView, node: Option<Node>)
    ensures
        walk.step(node).1 == Visit::Stop <==> one_more(walk.visited) > walk.budget,
        walk.step(node).1 == Visit::Stop ==> walk.step(node).0.usage.truncated,
        walk.step(node).1 != Visit::Stop ==> walk.step(node).0.usage.truncated
            == walk.usage.truncated,
        walk.visited < usize::MAX ==> walk.step(node).0.visited == walk.visited + 1,
{
}

/// A walk that looks for the newest modification time in a directory tree.
///
/// Modification times are never suppressed by mount options, which is what
/// makes this usable on a `noatime` filesystem where access times are frozen.
pub struct NewestWalk {
    /// How many entries the walk may visit.
    pub budget: usize,
    /// How many it has visited.
    pub visited: usize,
    /// The newest time so far, and the path that carries it.
    pub best: Option<(i64, String)>,
}

/// The view of a [`NewestWalk`].
#[verifier::ext_equal]
pub struct NewestView {
    /// See [`NewestWalk::budget`].
    pub budget: usize,
    /// See [`NewestWalk::visited`].
    pub visited: usize,
    /// See [`NewestWalk::best`].
    pub best: Option<(i64, Seq<char>)>,
}

/// The view of a time and the path that carries it.
pub open spec fn dated(best: Option<(i64, String)>) -> Option<(i64, Seq<char>)> {
    match best {
        Some((at, path)) => Some((at, path@)),
        None => None,
    }
}

impl View for NewestWalk {
    type V = NewestView;

    open spec fn view(&self) -> NewestView {
        NewestView { budget: self.budget, visited: self.visited, best: dated(self.best) }
    }
}

impl NewestView {
    /// The newest time after a node was seen: the first of equally new ones
    /// stays.
    pub open spec fn better(self, path: Seq<char>, mtime: i64) -> Option<(i64, Seq<char>)> {
        match self.best {
            Some((current, _)) => if mtime > current {
                Some((mtime, path))
            } else {
                self.best
            },
            None => Some((mtime, path)),
        }
    }

    /// The walk after one more node, which could be read or not, and how it
    /// goes on.
    pub open spec fn step(self, path: Seq<char>, node: Option<Node>) -> (NewestView, Visit) {
        let here = NewestView { visited: one_more(self.visited), ..self };
        if here.visited > self.budget {
            (here, Visit::Stop)
        } else {
            match node {
                None => (here, Visit::Skip),
                Some(node) => if node.is_symlink {
                    (here, Visit::Skip)
                } else {
                    (
                        NewestView { best: self.better(path, node.mtime), ..here },
                        if node.is_dir {
                            Visit::Descend
                        } else {
                            Visit::Skip
                        },
                    )
                },
            }
        }
    }
}

impl NewestWalk {
    /// Start a walk at `root`, last modified at the given time where that
    /// could be read.
    pub fn new(root: &str, mtime: Option<i64>, budget: usize) -> (r: NewestWalk)
        ensures
            r@ == (NewestView {
                budget,
                visited: 0,
                best: match mtime {
                    Some(at) => Some((at, root@)),
                    None => None,
                },
            }),
    {
        NewestWalk {
            budget,
            visited: 0,
            best: match mtime {
                Some(at) => Some((at, root.to_owned())),
                None => None,
            },
        }
    }

    /// Take one more node into account.
    pub fn visit(&mut self, path: &str, node: Option<Node>) -> (r: Visit)
        ensures
            (final(self)@, r) == old(self)@.step(path@, node),
    {
        if self.visited < usize::MAX {
            self.visited += 1;
        }
        if self.visited > self.budget {
            return Visit::Stop;
        }
        let node = match node {
            Some(node) => node,
            None => {
                return Visit::Skip;
            },
        };
        if node.is_symlink {
            return Visit::Skip;
        }
        let newer = match &self.best {
            Some((current, _)) => node.mtime > *current,
            None => true,
        };
        if newer {
            self.best = Some((node.mtime, path.to_owned()));
        }
        if node.is_dir {
            Visit::Descend
        } else {
            Visit::Skip
        }
    }
}

/// The newest time of a walk never gets older, and is at least as new as every
/// node that was seen.
pub proof fn newest_never_gets_older(walk: NewestView, path: Seq<char>, node: Node)
    requires
        !node.is_symlink,
        walk.step(path, Some(node)).1 != Visit::Stop,
    ensures
        walk.step(path, Some(node)).0.best is Some,
        walk.step(path, Some(node)).0.best.unwrap().0 >= node.mtime,
        walk.best is Some ==> walk.step(path, Some(node)).0.best.unwrap().0
            >= walk.best.unwrap().0,
{
}

/// A walk that collects the files of a directory tree whose name has one of
/// some endings.
pub struct SuffixWalk {
    /// The endings.
    pub suffixes: Vec<String>,
    /// How many entries the walk may visit.
    pub budget: usize,
    /// How many it has visited.
    pub visited: usize,
    /// The paths found so far, and the bytes that each takes up.
    pub found: Vec<(String, u64)>,
}

/// The view of a [`SuffixWalk`].
#[verifier::ext_equal]
pub struct SuffixView {
    /// See [`SuffixWalk::suffixes`].
    pub suffixes: Seq<Seq<char>>,
    /// See [`SuffixWalk::budget`].
    pub budget: usize,
    /// See [`SuffixWalk::visited`].
    pub visited: usize,
    /// See [`SuffixWalk::found`].
    pub found: Seq<(Seq<char>, u64)>,
}

/// The views of paths and their bytes.
pub open spec fn found_views(found: Seq<(String, u64)>) -> Seq<(Seq<char>, u64)> {
    Seq::new(found.len(), |i: int| (found[i].0@, found[i].1))
}

impl View for SuffixWalk {
    type V = SuffixView;

    open spec fn view(&self) -> SuffixView {
        SuffixView {
            suffixes: text::texts(self.suffixes@),
            budget: self.budget,
            visited: self.visited,
            found: found_views(self.found@),
        }
    }
}

/// Whether a name has one of some endings.
pub open spec fn has_ending(name: Seq<char>, suffixes: Seq<Seq<char>>) -> bool {
    exists|i: int| 0 <= i < suffixes.len() && text::ends(name, #[trigger] suffixes[i])
}

/// Whether a name has one of some endings.
fn ends_in_one(name: &str, suffixes: &Vec<String>) -> (r: bool)
    ensures
        r == has_ending(name@, text::texts(suffixes@)),
{
    let ghost all = text::texts(suffixes@);
    let mut i: usize = 0;
    while i < suffixes.len()
        invariant
            i <= suffixes.len(),
            all == text::texts(suffixes@),
            forall|k: int| 0 <= k < i ==> !text::ends(name@, #[trigger] all[k]),
        decreases suffixes.len() - i,
    {
        if ends_with(name, suffixes[i].as_str()) {
            assert(text::ends(name@, all[i as int]));
            return true;
        }
        i += 1;
    }
    false
}

impl SuffixView {
    /// The walk after one more node, which could be read or not, and how it
    /// goes on. A name that is not text has no ending.
    pub open spec fn step(
        self,
        path: Seq<char>,
        name: Option<Seq<char>>,
        node: Option<Node>,
    ) -> (SuffixView, Visit) {
        let here = SuffixView { visited: one_more(self.visited), ..self };
        if here.visited > self.budget {
            (here, Visit::Stop)
        } else {
            match node {
                None => (here, Visit::Skip),
                Some(node) => if node.is_symlink {
                    (here, Visit::Skip)
                } else if node.is_dir {
                    (here, Visit::Descend)
                } else if name is Some && has_ending(name.unwrap(), self.suffixes) {
                    (
                        SuffixView {
                            found: self.found.push((path, block_bytes(node.blocks))),
                            ..here
                        },
                        Visit::Skip,
                    )
                } else {
                    (here, Visit::Skip)
                },
            }
        }
    }
}

/// The order of what a walk found: by path, then by bytes.
pub open spec fn found_order(found: Seq<(Seq<char>, u64)>) -> spec_fn(int, int) -> bool {
    |a: int, b: int|
        path::path_le(found[a].0, found[b].0) && (path::path_le(found[b].0, found[a].0)
            ==> found[a].1 <= found[b].1)
}

/// What a walk found, in order.
pub open spec fn sorted_found(found: Seq<(Seq<char>, u64)>) -> Seq<(Seq<char>, u64)> {
    sort::taken_by(found, sort::stable_order(found_order(found), found.len()))
}

/// The text in an optional name.
pub open spec fn name_view(name: Option<&str>) -> Option<Seq<char>> {
    match name {
        Some(name) => Some(name@),
        None => None,
    }
}

impl SuffixWalk {
    /// Start a walk for the given endings.
    pub fn new(suffixes: &Vec<String>, budget: usize) -> (r: SuffixWalk)
        ensures
            r@ == (SuffixView {
                suffixes: text::texts(suffixes@),
                budget,
                visited: 0,
                found: Seq::empty(),
            }),
    {
        let r = SuffixWalk {
            suffixes: copy_texts(suffixes),
            budget,
            visited: 0,
            found: Vec::new(),
        };
        assert(r@.found =~= Seq::empty());
        r
    }

    /// Take one more node into account.
    pub fn visit(&mut self, path: &str, name: Option<&str>, node: Option<Node>) -> (r: Visit)
        ensures
            (final(self)@, r) == old(self)@.step(path@, name_view(name), node),
    {
        if self.visited < usize::MAX {
            self.visited += 1;
        }
        if self.visited > self.budget {
            return Visit::Stop;
        }
        let node = match node {
            Some(node) => node,
            None => {
                return Visit::Skip;
            },
        };
        if node.is_symlink {
            return Visit::Skip;
        }
        if node.is_dir {
            return Visit::Descend;
        }
        let matches = match name {
            Some(name) => ends_in_one(name, &self.suffixes),
            None => false,
        };
        if matches {
            let ghost before = found_views(self.found@);
            self.found.push((path.to_owned(), disk_size(node.blocks)));
            assert(found_views(self.found@) =~= before.push((path@, block_bytes(node.blocks))));
        }
        Visit::Skip
    }

    /// What the walk found, in order.
    pub fn finish(&self) -> (r: Vec<(String, u64)>)
        ensures
            found_views(r@) == sorted_found(self@.found),
    {
        let ghost all = found_views(self.found@);
        let n: usize = self.found.len();
        let mut keys: Vec<Vec<String>> = Vec::new();
        let mut i: usize = 0;
        while i < n
            invariant
                i <= n,
                n == self.found.len(),
                all == found_views(self.found@),
                keys.len() == i,
                forall|k: int|
                    0 <= k < i ==> text::texts(#[trigger] keys@[k]@) == path::components(all[k].0),
            decreases n - i,
        {
            keys.push(parts(self.found[i].0.as_str()));
            i += 1;
        }
        let ghost le = found_order(all);
        proof {
            assert forall|a: int, b: int| 0 <= a < n && 0 <= b < n implies #[trigger] le(a, b)
                || #[trigger] le(b, a) by {
                path::path_order(all[a].0, all[b].0, all[a].0);
            }
            assert forall|a: int, b: int, c: int|
                0 <= a < n && 0 <= b < n && 0 <= c < n && #[trigger] le(a, b) && #[trigger] le(
                    b,
                    c,
                ) implies le(a, c) by {
                path::path_order(all[a].0, all[b].0, all[c].0);
                path::path_order(all[c].0, all[a].0, all[b].0);
                path::path_order(all[b].0, all[c].0, all[a].0);
            }
        }
        let found = &self.found;
        let at_or_before = |a: usize, b: usize| -> (r: bool)
            requires
                a < keys.len(),
                b < keys.len(),
                keys.len() == found.len(),
            ensures
                r == (path::list_le(text::texts(keys@[a as int]@), text::texts(keys@[b as int]@))
                    && (path::list_le(
                    text::texts(keys@[b as int]@),
                    text::texts(keys@[a as int]@),
                ) ==> found@[a as int].1 <= found@[b as int].1)),
            {
                parts_at_most(&keys[a], &keys[b]) && (!parts_at_most(&keys[b], &keys[a])
                    || found[a].1 <= found[b].1)
            };
        let places = sorted_positions(n, at_or_before, Ghost(le));
        let mut out: Vec<(String, u64)> = Vec::new();
        let mut k: usize = 0;
        while k < n
            invariant
                k <= n,
                n == self.found.len(),
                all == found_views(self.found@),
                sort::is_listing(places@, n as nat),
                out.len() == k,
                forall|j: int|
                    0 <= j < k ==> (#[trigger] out@[j].0@, out@[j].1) == all[places@[j] as int],
            decreases n - k,
        {
            let at: usize = places[k];
            out.push((self.found[at].0.clone(), self.found[at].1));
            k += 1;
        }
        assert(found_views(out@) =~= sort::taken_by(all, places@));
        out
    }
}

} // verus!
