//! What walks through directories find.
use vstd::prelude::*;

use crate::capability;
use crate::capability::{NewestView, Node, SuffixView, TreeView, Usage, Visit};
use crate::path;
use crate::sort;
use crate::text;

verus! {

/// Whether another node may be looked at.
pub open spec fn may_go_on(visited: usize, budget: usize) -> bool {
    visited < budget
}

/// A walk adds up what files take up on disk, 512 bytes for each block, and
/// counts them. Directories and links add nothing themselves, and what lies on
/// another filesystem is left out.
pub proof fn walks_add_up_blocks(walk: TreeView, node: Node)
    requires
        may_go_on(walk.visited, walk.budget),
        walk.usage.files < usize::MAX,
        walk.usage.bytes + node.blocks * 512 <= u64::MAX,
    ensures
        ({
            let (after, visit) = walk.step(Some(node));
            let inside = walk.device is None || walk.device == Some(node.device);
            &&& node.is_symlink ==> visit == Visit::Skip && after.usage == walk.usage
            &&& !inside ==> visit == Visit::Skip && after.usage == walk.usage
            &&& !node.is_symlink && inside && node.is_dir ==> visit == Visit::Descend && after.usage
                == walk.usage
            &&& !node.is_symlink && inside && !node.is_dir && node.links <= 1 ==> visit == Visit::Skip
                && after.usage == (Usage {
                bytes: (walk.usage.bytes + node.blocks * 512) as u64,
                files: (walk.usage.files + 1) as usize,
                truncated: walk.usage.truncated,
            })
            &&& after.device == walk.device && after.budget == walk.budget && after.visited
                == walk.visited + 1
        }),
{
}

/// A file with several names is counted the first time, and never again in the
/// same walk.
pub proof fn linked_files_count_once(walk: TreeView, node: Node)
    requires
        may_go_on(walk.visited, walk.budget),
        walk.usage.files < usize::MAX,
        walk.usage.bytes + node.blocks * 512 <= u64::MAX,
        walk.device is None || walk.device == Some(node.device),
        !node.is_symlink,
        !node.is_dir,
        node.links > 1,
        walk.counted == Set::<u128>::empty(),
    ensures
        ({
            let after = walk.step(Some(node)).0;
            &&& after.usage.bytes == walk.usage.bytes + node.blocks * 512
            &&& after.usage.files == walk.usage.files + 1
            &&& after.step(Some(node)).0.usage.bytes == after.usage.bytes
            &&& after.step(Some(node)).0.usage.files == after.usage.files
            &&& forall|other: Node|
                !other.is_dir && !other.is_symlink && other.links > 1 && (other.device != node.device
                    || other.inode != node.inode) && (walk.device is None || walk.device == Some(
                    other.device,
                )) && may_go_on(after.visited, after.budget) && after.usage.files < usize::MAX
                    && after.usage.bytes + other.blocks * 512 <= u64::MAX ==> (#[trigger] after.step(
                    Some(other),
                )).0.usage.files == after.usage.files + 1
        }),
{
    let after = walk.step(Some(node)).0;
    assert forall|other: Node|
        !other.is_dir && !other.is_symlink && other.links > 1 && (other.device != node.device
            || other.inode != node.inode) && (walk.device is None || walk.device == Some(
            other.device,
        )) && may_go_on(after.visited, after.budget) && after.usage.files < usize::MAX
            && after.usage.bytes + other.blocks * 512 <= u64::MAX implies (#[trigger] after.step(
        Some(other),
    )).0.usage.files == after.usage.files + 1 by {
        if capability::node_number(other.device, other.inode) == capability::node_number(
            node.device,
            node.inode,
        ) {
            capability::node_numbers_are_unique(other, node);
        }
    }
}

/// What cannot be looked at adds nothing, and a walk that has used its budget
/// up stops and says that it is not complete.
pub proof fn budgets_end_walks(walk: TreeView, node: Option<Node>)
    requires
        walk.visited < usize::MAX,
    ensures
        may_go_on(walk.visited, walk.budget) ==> walk.step(None).1 == Visit::Skip && walk.step(
            None,
        ).0.usage == walk.usage,
        !may_go_on(walk.visited, walk.budget) ==> walk.step(node).1 == Visit::Stop && walk.step(
            node,
        ).0.usage == (Usage { truncated: true, ..walk.usage }),
{
}

/// A walk begins with nothing found.
pub proof fn walks_begin_empty(device: Option<u64>, budget: usize)
    ensures
        TreeView::fresh(device, budget).usage == (Usage { bytes: 0, files: 0, truncated: false }),
        TreeView::fresh(device, budget).visited == 0,
        TreeView::fresh(device, budget).budget == budget,
        TreeView::fresh(device, budget).device == device,
        TreeView::fresh(device, budget).counted == Set::<u128>::empty(),
{
}

/// The latest modification is that of a file or directory that was seen, and a
/// later one replaces it. Links are passed over.
pub proof fn later_modifications_replace_earlier(walk: NewestView, at: Seq<char>, node: Node)
    requires
        may_go_on(walk.visited, walk.budget),
    ensures
        ({
            let (after, visit) = walk.step(at, Some(node));
            &&& node.is_symlink ==> visit == Visit::Skip && after.best == walk.best
            &&& !node.is_symlink ==> (visit == Visit::Descend <==> node.is_dir)
            &&& !node.is_symlink && walk.best is None ==> after.best == Some((node.mtime, at))
            &&& walk.best matches Some(best) ==> {
                &&& !node.is_symlink && node.mtime > best.0 ==> after.best == Some((node.mtime, at))
                &&& node.mtime <= best.0 ==> after.best == walk.best
            }
            &&& walk.step(at, None).0.best == walk.best
        }),
{
}

/// Files are found by how their names end; directories are walked, links are
/// passed over, and everything else is left out.
pub proof fn files_are_found_by_their_ending(
    walk: SuffixView,
    at: Seq<char>,
    name: Seq<char>,
    node: Node,
    front: Seq<char>,
    k: int,
)
    requires
        may_go_on(walk.visited, walk.budget),
        node.blocks * 512 <= u64::MAX,
    ensures
        ({
            let (after, visit) = walk.step(at, Some(name), Some(node));
            &&& node.is_symlink ==> visit == Visit::Skip && after.found == walk.found
            &&& !node.is_symlink && node.is_dir ==> visit == Visit::Descend && after.found
                == walk.found
            &&& !node.is_symlink && !node.is_dir && 0 <= k < walk.suffixes.len() && name == front
                + walk.suffixes[k] ==> after.found == walk.found.push(
                (at, (node.blocks * 512) as u64),
            )
            &&& !node.is_symlink && !node.is_dir && (forall|i: int, before: Seq<char>|
                0 <= i < walk.suffixes.len() ==> name != #[trigger] (before + walk.suffixes[i]))
                ==> after.found == walk.found
            &&& walk.step(at, None, Some(node)).0.found == walk.found
        }),
{
    if 0 <= k < walk.suffixes.len() && name == front + walk.suffixes[k] {
        assert(name.skip(name.len() - walk.suffixes[k].len()) =~= walk.suffixes[k]);
        assert(text::ends(name, walk.suffixes[k]));
    }
    if capability::has_ending(name, walk.suffixes) {
        let i = choose|i: int|
            0 <= i < walk.suffixes.len() && text::ends(name, #[trigger] walk.suffixes[i]);
        let before = name.take(name.len() - walk.suffixes[i].len());
        assert(name =~= before + walk.suffixes[i]);
    }
}

/// What was found is listed by path, all of it.
pub proof fn found_files_are_listed_by_path(
    found: Seq<(Seq<char>, u64)>,
    file: (Seq<char>, u64),
)
    requires
        found.len() <= usize::MAX,
    ensures
        capability::sorted_found(found).len() == found.len(),
        capability::sorted_found(found).contains(file) <==> found.contains(file),
        forall|i: int, j: int|
            0 <= i < j < found.len() ==> path::path_le(
                (#[trigger] capability::sorted_found(found)[i]).0,
                (#[trigger] capability::sorted_found(found)[j]).0,
            ),
{
    let le = capability::found_order(found);
    lemma_order(found);
    sort::stable_order_exists(le, found.len());
    let p = sort::stable_order(le, found.len());
    let sorted = capability::sorted_found(found);
    assert forall|i: int, j: int| 0 <= i < j < found.len() implies path::path_le(
        (#[trigger] sorted[i]).0,
        (#[trigger] sorted[j]).0,
    ) by {
        assert(le(p[i] as int, p[j] as int));
    }
    if sorted.contains(file) {
        let i = choose|i: int| 0 <= i < sorted.len() && sorted[i] == file;
        assert(found[p[i] as int] == file);
    }
    if found.contains(file) {
        let i = choose|i: int| 0 <= i < found.len() && found[i] == file;
        sort::lemma_listing_covers(p, found.len(), i as usize);
        let k = choose|k: int| 0 <= k < p.len() && p[k] == i;
        assert(sorted[k] == file);
    }
}

proof fn lemma_order(found: Seq<(Seq<char>, u64)>)
    ensures
        sort::is_preorder(capability::found_order(found), found.len()),
{
    let le = capability::found_order(found);
    assert forall|a: int, b: int| 0 <= a < found.len() && 0 <= b < found.len() implies #[trigger] le(
        a,
        b,
    ) || #[trigger] le(b, a) by {
        path::path_order(found[a].0, found[b].0, found[a].0);
    }
    assert forall|a: int, b: int, c: int|
        0 <= a < found.len() && 0 <= b < found.len() && 0 <= c < found.len() && #[trigger] le(a, b)
            && #[trigger] le(b, c) implies le(a, c) by {
        path::path_order(found[a].0, found[b].0, found[c].0);
        path::path_order(found[c].0, found[a].0, found[b].0);
        path::path_order(found[b].0, found[c].0, found[a].0);
    }
}

} // verus!
