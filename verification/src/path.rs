//! Paths as text.
use vstd::prelude::*;

use crate::split;
use crate::split::split;
use crate::text;
use crate::text::{at_most, chars_of, same};

verus! {

/// `base` with `rest` behind it: with a slash between them unless `base` is
/// empty or ends in one. A `rest` that starts with a slash stands alone.
pub open spec fn join_path(base: Seq<char>, rest: Seq<char>) -> Seq<char> {
    if rest.len() > 0 && rest[0] == '/' {
        rest
    } else if base.len() == 0 || base.last() == '/' {
        base + rest
    } else {
        base + seq!['/'] + rest
    }
}

/// `Path::join`.
pub fn join(base: &str, rest: &str) -> (r: String)
    ensures
        r@ == join_path(base@, rest@),
{
    let b = chars_of(base);
    let t = chars_of(rest);
    if t.len() > 0 && t[0] == '/' {
        return rest.to_owned();
    }
    let mut out = base.to_owned();
    if b.len() > 0 && b[b.len() - 1] != '/' {
        out.push('/');
        assert(out@ =~= base@ + seq!['/']);
    }
    out.append(rest);
    out
}

/// What a component of a path is compared by: the root before everything, a
/// parent directory before a name, and names by their text. The digit in front
/// keeps the three apart.
pub open spec fn component(piece: Seq<char>) -> Seq<char> {
    if piece == ".."@ {
        "2"@
    } else {
        "3"@ + piece
    }
}

/// The components among the pieces of a path: all but the empty ones and the
/// dots that say nothing.
pub open spec fn components_of(pieces: Seq<Seq<char>>) -> Seq<Seq<char>>
    decreases pieces.len(),
{
    if pieces.len() == 0 {
        Seq::empty()
    } else {
        let before = components_of(pieces.drop_last());
        let piece = pieces.last();
        if piece.len() == 0 || piece == "."@ {
            before
        } else {
            before.push(component(piece))
        }
    }
}

/// The components of a path: the root where it starts with a slash, the
/// current directory where it starts with a dot, and what lies between its
/// slashes.
pub open spec fn components(path: Seq<char>) -> Seq<Seq<char>> {
    let pieces = split::split_on(path, '/');
    let head = if path.len() > 0 && path[0] == '/' {
        seq!["0"@]
    } else if pieces[0] == "."@ {
        seq!["1"@]
    } else {
        Seq::empty()
    };
    head + components_of(pieces)
}

/// Lexicographic order of lists of texts.
pub open spec fn list_le(a: Seq<Seq<char>>, b: Seq<Seq<char>>) -> bool
    decreases a.len(),
{
    a.len() == 0 || (b.len() > 0 && text::text_le(a[0], b[0]) && (a[0] == b[0] ==> list_le(
        a.drop_first(),
        b.drop_first(),
    )))
}

/// The order of paths: by their components.
pub open spec fn path_le(a: Seq<char>, b: Seq<char>) -> bool {
    list_le(components(a), components(b))
}

proof fn lemma_list_total(a: Seq<Seq<char>>, b: Seq<Seq<char>>)
    ensures
        list_le(a, b) || list_le(b, a),
    decreases a.len(),
{
    text::text_order_is_total();
    if a.len() > 0 && b.len() > 0 {
        lemma_list_total(a.drop_first(), b.drop_first());
    }
}

proof fn lemma_list_transitive(a: Seq<Seq<char>>, b: Seq<Seq<char>>, c: Seq<Seq<char>>)
    requires
        list_le(a, b),
        list_le(b, c),
    ensures
        list_le(a, c),
    decreases a.len(),
{
    text::text_order_is_total();
    if a.len() > 0 && a[0] == b[0] && b[0] == c[0] {
        lemma_list_transitive(a.drop_first(), b.drop_first(), c.drop_first());
    }
}

/// Any two paths are in order one way or the other, and consistently.
pub proof fn path_order(a: Seq<char>, b: Seq<char>, c: Seq<char>)
    ensures
        path_le(a, b) || path_le(b, a),
        path_le(a, b) && path_le(b, c) ==> path_le(a, c),
{
    lemma_list_total(components(a), components(b));
    if path_le(a, b) && path_le(b, c) {
        lemma_list_transitive(components(a), components(b), components(c));
    }
}

/// The components of a path.
pub fn parts(path: &str) -> (r: Vec<String>)
    ensures
        text::texts(r@) == components(path@),
{
    let pieces = split(path, '/');
    let ghost all = split::split_on(path@, '/');
    let chars = chars_of(path);
    let mut out: Vec<String> = Vec::new();
    assert(text::texts(pieces@)[0] == pieces@[0]@);
    if chars.len() > 0 && chars[0] == '/' {
        out.push("0".to_owned());
    } else if same(pieces[0].as_str(), ".") {
        out.push("1".to_owned());
    }
    let ghost head = text::texts(out@);
    proof {
        let expected = if path@.len() > 0 && path@[0] == '/' {
            seq!["0"@]
        } else if all[0] == "."@ {
            seq!["1"@]
        } else {
            Seq::empty()
        };
        assert(head =~= expected);
        assert(all.take(0) =~= Seq::empty());
        assert(text::texts(out@) =~= head + components_of(all.take(0)));
    }
    let mut i: usize = 0;
    while i < pieces.len()
        invariant
            i <= pieces.len(),
            text::texts(pieces@) == all,
            text::texts(out@) == head + components_of(all.take(i as int)),
        decreases pieces.len() - i,
    {
        proof {
            assert(all.take(i + 1).drop_last() =~= all.take(i as int));
            assert(all.take(i + 1).last() == pieces@[i as int]@);
        }
        let piece = pieces[i].as_str();
        if !piece.is_empty() && !same(piece, ".") {
            let ghost before = text::texts(out@);
            if same(piece, "..") {
                out.push("2".to_owned());
            } else {
                out.push(crate::text::concat2("3", piece));
            }
            proof {
                assert(text::texts(out@) =~= before.push(component(piece@)));
                assert(text::texts(out@) =~= head + components_of(all.take(i + 1)));
            }
        }
        i += 1;
    }
    assert(all.take(all.len() as int) =~= all);
    out
}

proof fn lemma_list_common(a: Seq<Seq<char>>, b: Seq<Seq<char>>, i: int)
    requires
        0 <= i <= a.len(),
        i <= b.len(),
        forall|k: int| 0 <= k < i ==> a[k] == b[k],
    ensures
        list_le(a, b) == list_le(a.skip(i), b.skip(i)),
    decreases i,
{
    if i == 0 {
        assert(a.skip(0) =~= a);
        assert(b.skip(0) =~= b);
    } else {
        text::text_order_is_total();
        assert(a[0] == b[0]);
        assert forall|k: int| 0 <= k < i - 1 implies a.drop_first()[k] == b.drop_first()[k] by {
            assert(a[k + 1] == b[k + 1]);
        }
        lemma_list_common(a.drop_first(), b.drop_first(), i - 1);
        assert(a.drop_first().skip(i - 1) =~= a.skip(i));
        assert(b.drop_first().skip(i - 1) =~= b.skip(i));
    }
}

/// Whether the first list of components does not come behind the second.
pub fn parts_at_most(a: &Vec<String>, b: &Vec<String>) -> (r: bool)
    ensures
        r == list_le(text::texts(a@), text::texts(b@)),
{
    let ghost x = text::texts(a@);
    let ghost y = text::texts(b@);
    let mut i: usize = 0;
    while i < a.len() && i < b.len() && same(a[i].as_str(), b[i].as_str())
        invariant
            i <= a.len(),
            i <= b.len(),
            x == text::texts(a@),
            y == text::texts(b@),
            forall|k: int| 0 <= k < i ==> #[trigger] x[k] == y[k],
        decreases a.len() - i,
    {
        i += 1;
    }
    proof {
        lemma_list_common(x, y, i as int);
    }
    if i == a.len() {
        true
    } else if i == b.len() {
        false
    } else {
        at_most(a[i].as_str(), b[i].as_str())
    }
}

/// Whether a path names the root directory: it is absolute and has no
/// component beyond the root.
pub open spec fn is_root_path(path: Seq<char>) -> bool {
    components(path) == seq!["0"@]
}

/// Whether a path names the root directory.
pub fn is_root(path: &str) -> (r: bool)
    ensures
        r == is_root_path(path@),
{
    let found = parts(path);
    assert(text::texts(found@).len() == found.len());
    if found.len() != 1 {
        return false;
    }
    assert(text::texts(found@)[0] == found@[0]@);
    let r = same(found[0].as_str(), "0");
    assert(r ==> text::texts(found@) =~= seq!["0"@]);
    r
}

} // verus!
