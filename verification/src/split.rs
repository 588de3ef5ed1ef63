//! Taking text apart and putting it together.
use vstd::prelude::*;

use crate::text;
use crate::text::{chars_of, string_of, white};

verus! {

/// The pieces of `s` between the characters satisfying `p`.
///
/// Reading from the left, an ordinary character extends the last piece and a
/// separator opens a new one, so there is always one piece more than there are
/// separators.
pub open spec fn split_where(s: Seq<char>, p: spec_fn(char) -> bool) -> Seq<Seq<char>>
    decreases s.len(),
{
    if s.len() == 0 {
        seq![Seq::<char>::empty()]
    } else {
        let before = split_where(s.drop_last(), p);
        if p(s.last()) {
            before.push(Seq::<char>::empty())
        } else {
            before.drop_last().push(before.last().push(s.last()))
        }
    }
}

/// The pieces of `s` between the occurrences of `c`.
pub open spec fn split_on(s: Seq<char>, c: char) -> Seq<Seq<char>> {
    split_where(s, text::just(c))
}

/// The words of `s`: its longest stretches without white space.
pub open spec fn words(s: Seq<char>) -> Seq<Seq<char>> {
    split_where(s, text::whites()).filter(|w: Seq<char>| w.len() > 0)
}

/// A line as it stands before its line feed, without the carriage return that
/// may go with it.
pub open spec fn without_return(line: Seq<char>) -> Seq<char> {
    if line.len() > 0 && line.last() == '\r' {
        line.drop_last()
    } else {
        line
    }
}

/// The lines of `s`: each piece that a line feed ends, and what follows the
/// last line feed unless that is nothing.
pub open spec fn lines(s: Seq<char>) -> Seq<Seq<char>> {
    let pieces = split_on(s, '\n');
    let ended = Seq::new(
        (pieces.len() - 1) as nat,
        |i: int| without_return(pieces[i]),
    );
    if pieces.last().len() == 0 {
        ended
    } else {
        ended.push(pieces.last())
    }
}

/// The pieces with `sep` between each two.
pub open spec fn join(pieces: Seq<Seq<char>>, sep: Seq<char>) -> Seq<char>
    decreases pieces.len(),
{
    if pieces.len() == 0 {
        Seq::empty()
    } else if pieces.len() == 1 {
        pieces[0]
    } else {
        join(pieces.drop_last(), sep) + sep + pieces.last()
    }
}

/// A split never yields nothing at all.
pub proof fn lemma_split_nonempty(s: Seq<char>, p: spec_fn(char) -> bool)
    ensures
        split_where(s, p).len() > 0,
    decreases s.len(),
{
    if s.len() > 0 {
        lemma_split_nonempty(s.drop_last(), p);
    }
}

/// Text without a separator is its own only piece.
pub proof fn lemma_split_unsplit(s: Seq<char>, p: spec_fn(char) -> bool)
    requires
        forall|i: int| 0 <= i < s.len() ==> !p(#[trigger] s[i]),
    ensures
        split_where(s, p) == seq![s],
    decreases s.len(),
{
    if s.len() == 0 {
        assert(s =~= Seq::empty());
    } else {
        lemma_split_unsplit(s.drop_last(), p);
        assert(s =~= s.drop_last().push(s.last()));
        assert(split_where(s, p) =~= seq![s]);
    }
}

/// Splitting around a separator splits what stands on either side of it.
pub proof fn lemma_split_append(a: Seq<char>, c: char, b: Seq<char>, p: spec_fn(char) -> bool)
    requires
        p(c),
    ensures
        split_where(a.push(c) + b, p) == split_where(a, p) + split_where(b, p),
    decreases b.len(),
{
    let whole = a.push(c) + b;
    if b.len() == 0 {
        assert(whole =~= a.push(c));
        assert(whole.drop_last() =~= a);
        assert(split_where(whole, p) =~= split_where(a, p) + split_where(b, p));
    } else {
        assert(whole.drop_last() =~= a.push(c) + b.drop_last());
        assert(whole.last() == b.last());
        lemma_split_append(a, c, b.drop_last(), p);
        lemma_split_nonempty(b.drop_last(), p);
        assert(split_where(whole, p) =~= split_where(a, p) + split_where(b, p));
    }
}

/// The first piece of a split is what stands before the first separator.
pub proof fn lemma_split_first(s: Seq<char>, p: spec_fn(char) -> bool, i: int)
    requires
        0 <= i <= s.len(),
        forall|j: int| 0 <= j < i ==> !p(#[trigger] s[j]),
        i < s.len() ==> p(s[i]),
    ensures
        split_where(s, p)[0] == s.take(i),
        (i == s.len()) == (split_where(s, p).len() == 1),
{
    if i == s.len() {
        assert(s.take(i) =~= s);
        lemma_split_unsplit(s, p);
    } else {
        let a = s.take(i);
        let b = s.skip(i + 1);
        assert(s =~= a.push(s[i]) + b);
        lemma_split_append(a, s[i], b, p);
        lemma_split_unsplit(a, p);
        lemma_split_nonempty(b, p);
    }
}

/// The pieces of `v` between the occurrences of `c`.
fn split_chars(v: &Vec<char>, c: char) -> (r: Vec<String>)
    ensures
        text::texts(r@) == split_on(v@, c),
        r.len() > 0,
{
    let ghost p = text::just(c);
    let mut out: Vec<String> = Vec::new();
    let mut start: usize = 0;
    let mut i: usize = 0;
    proof {
        assert(v@.take(0) =~= Seq::empty());
        assert(text::texts(out@) =~= split_where(v@.take(0), p).drop_last());
    }
    while i < v.len()
        invariant
            start <= i <= v.len(),
            p == text::just(c),
            text::texts(out@) == split_where(v@.take(i as int), p).drop_last(),
            split_where(v@.take(i as int), p).len() > 0,
            split_where(v@.take(i as int), p).last() == v@.subrange(start as int, i as int),
        decreases v.len() - i,
    {
        proof {
            assert(v@.take(i + 1).drop_last() =~= v@.take(i as int));
            assert(v@.take(i + 1).last() == v@[i as int]);
        }
        let ghost before = split_where(v@.take(i as int), p);
        let ghost after = split_where(v@.take(i + 1), p);
        if v[i] == c {
            let ghost was = out@;
            out.push(string_of(v, start, i));
            start = i + 1;
            proof {
                assert(after == before.push(Seq::<char>::empty()));
                assert(text::texts(out@) =~= text::texts(was).push(before.last()));
                assert(before =~= before.drop_last().push(before.last()));
                assert(after.drop_last() =~= before);
                assert(v@.subrange(i + 1, i + 1) =~= Seq::empty());
            }
        } else {
            proof {
                assert(after.drop_last() =~= before.drop_last());
                assert(v@.subrange(start as int, i + 1) =~= v@.subrange(start as int, i as int).push(
                    v@[i as int],
                ));
            }
        }
        i += 1;
    }
    let ghost was = out@;
    out.push(string_of(v, start, v.len()));
    proof {
        let whole = split_where(v@, p);
        assert(v@.take(v@.len() as int) =~= v@);
        assert(whole =~= whole.drop_last().push(whole.last()));
        assert(text::texts(out@) =~= text::texts(was).push(whole.last()));
    }
    out
}

/// `str::split` at a character.
pub fn split(s: &str, c: char) -> (r: Vec<String>)
    ensures
        text::texts(r@) == split_on(s@, c),
        r.len() > 0,
{
    split_chars(&chars_of(s), c)
}

/// `str::split_whitespace`.
pub fn split_words(s: &str) -> (r: Vec<String>)
    ensures
        text::texts(r@) == words(s@),
{
    let v = chars_of(s);
    let ghost p = text::whites();
    let ghost full = |w: Seq<char>| w.len() > 0;
    let mut out: Vec<String> = Vec::new();
    let mut start: usize = 0;
    let mut i: usize = 0;
    proof {
        assert(v@.take(0) =~= Seq::empty());
        let none = split_where(v@.take(0), p).drop_last();
        assert(none =~= Seq::<Seq<char>>::empty());
        reveal(Seq::filter);
        assert(none.filter(full) =~= Seq::<Seq<char>>::empty());
        assert(text::texts(out@) =~= none.filter(full));
    }
    while i < v.len()
        invariant
            start <= i <= v.len(),
            v@ == s@,
            p == text::whites(),
            full == (|w: Seq<char>| w.len() > 0),
            text::texts(out@) == split_where(v@.take(i as int), p).drop_last().filter(full),
            split_where(v@.take(i as int), p).len() > 0,
            split_where(v@.take(i as int), p).last() == v@.subrange(start as int, i as int),
        decreases v.len() - i,
    {
        let ghost before = split_where(v@.take(i as int), p);
        let ghost after = split_where(v@.take(i + 1), p);
        proof {
            assert(v@.take(i + 1).drop_last() =~= v@.take(i as int));
            assert(v@.take(i + 1).last() == v@[i as int]);
            assert(before =~= before.drop_last().push(before.last()));
        }
        if white(v[i]) {
            let ghost was = out@;
            proof {
                assert(after.drop_last() =~= before);
                lemma_filter_push(before.drop_last(), before.last(), full);
                assert(v@.subrange(i + 1, i + 1) =~= Seq::empty());
            }
            if start < i {
                out.push(string_of(&v, start, i));
                assert(text::texts(out@) =~= text::texts(was).push(before.last()));
            }
            start = i + 1;
        } else {
            proof {
                assert(after.drop_last() =~= before.drop_last());
                assert(v@.subrange(start as int, i + 1) =~= v@.subrange(start as int, i as int).push(
                    v@[i as int],
                ));
            }
        }
        i += 1;
    }
    proof {
        let whole = split_where(v@, p);
        assert(v@.take(v@.len() as int) =~= v@);
        assert(whole =~= whole.drop_last().push(whole.last()));
        lemma_filter_push(whole.drop_last(), whole.last(), full);
    }
    if start < v.len() {
        let ghost was = out@;
        out.push(string_of(&v, start, v.len()));
        assert(text::texts(out@) =~= text::texts(was).push(split_where(v@, p).last()));
    }
    out
}

/// Filtering a sequence with one more element at its end.
pub proof fn lemma_filter_push<A>(s: Seq<A>, a: A, keep: spec_fn(A) -> bool)
    ensures
        s.push(a).filter(keep) == (if keep(a) {
            s.filter(keep).push(a)
        } else {
            s.filter(keep)
        }),
{
    reveal(Seq::filter);
    assert(s.push(a).drop_last() =~= s);
    assert(s.push(a).last() == a);
}

/// A filtered sequence is no longer than the sequence.
pub proof fn lemma_filter_len<A>(s: Seq<A>, which: spec_fn(A) -> bool)
    ensures
        s.filter(which).len() <= s.len(),
    decreases s.len(),
{
    reveal(Seq::filter);
    if s.len() > 0 {
        lemma_filter_len(s.drop_last(), which);
    }
}

/// What a filtered sequence holds.
pub proof fn lemma_filter_contains<A>(s: Seq<A>, keep: spec_fn(A) -> bool, x: A)
    ensures
        s.filter(keep).contains(x) <==> s.contains(x) && keep(x),
    decreases s.len(),
{
    if s.len() == 0 {
        reveal(Seq::filter);
        assert(s.filter(keep).len() == 0);
    } else {
        lemma_filter_contains(s.drop_last(), keep, x);
        lemma_filter_push(s.drop_last(), s.last(), keep);
        assert(s.drop_last().push(s.last()) =~= s);
        crate::sets::lemma_push_contains(s.drop_last(), s.last());
        crate::sets::lemma_push_contains(s.drop_last().filter(keep), s.last());
    }
}

/// The lines with a line feed behind each.
pub fn unlined(ls: &Vec<String>) -> (r: String)
    ensures
        r@ == unlines(text::texts(ls@)),
{
    let ghost all = text::texts(ls@);
    let mut out = String::new();
    let mut i: usize = 0;
    assert(all.take(0) =~= Seq::empty());
    while i < ls.len()
        invariant
            i <= ls.len(),
            all == text::texts(ls@),
            out@ == unlines(all.take(i as int)),
        decreases ls.len() - i,
    {
        assert(all.take(i + 1).drop_last() =~= all.take(i as int));
        out.append(ls[i].as_str());
        out.push('\n');
        assert(out@ =~= unlines(all.take(i + 1)));
        i += 1;
    }
    assert(all.take(all.len() as int) =~= all);
    out
}

/// `str::lines`.
pub fn split_lines(s: &str) -> (r: Vec<String>)
    ensures
        text::texts(r@) == lines(s@),
{
    let pieces = split(s, '\n');
    let ghost all = split_on(s@, '\n');
    let mut out: Vec<String> = Vec::new();
    let mut i: usize = 0;
    while i < pieces.len() - 1
        invariant
            i <= pieces.len() - 1,
            text::texts(pieces@) == all,
            pieces.len() > 0,
            text::texts(out@) == Seq::new(i as nat, |k: int| without_return(all[k])),
        decreases pieces.len() - i,
    {
        let v = chars_of(pieces[i].as_str());
        let ghost was = out@;
        assert(text::texts(pieces@)[i as int] == v@);
        if v.len() > 0 && v[v.len() - 1] == '\r' {
            out.push(string_of(&v, 0, v.len() - 1));
            assert(v@.drop_last() =~= v@.subrange(0, v@.len() - 1));
        } else {
            out.push(pieces[i].clone());
        }
        proof {
            assert(text::texts(out@) =~= text::texts(was).push(without_return(all[i as int])));
            assert(text::texts(out@) =~= Seq::new((i + 1) as nat, |k: int| without_return(all[k])));
        }
        i += 1;
    }
    proof {
        assert(text::texts(pieces@)[pieces.len() - 1] == pieces@[pieces.len() - 1]@);
    }
    if !pieces[i].as_str().is_empty() {
        let ghost was = out@;
        out.push(pieces[i].clone());
        assert(text::texts(out@) =~= text::texts(was).push(all.last()));
    }
    assert(text::texts(out@) =~= lines(s@));
    out
}

/// `[String]::join`.
pub fn joined(pieces: &Vec<String>, sep: &str) -> (r: String)
    ensures
        r@ == join(text::texts(pieces@), sep@),
{
    let mut out = String::new();
    let mut i: usize = 0;
    proof {
        assert(text::texts(pieces@).take(0) =~= Seq::empty());
    }
    while i < pieces.len()
        invariant
            i <= pieces.len(),
            out@ == join(text::texts(pieces@).take(i as int), sep@),
        decreases pieces.len() - i,
    {
        let ghost done = text::texts(pieces@).take(i + 1);
        proof {
            assert(done.drop_last() =~= text::texts(pieces@).take(i as int));
            assert(done.last() == pieces@[i as int]@);
        }
        if i > 0 {
            out.append(sep);
        }
        out.append(pieces[i].as_str());
        proof {
            if i == 0 {
                assert(out@ =~= done[0]);
            }
        }
        i += 1;
    }
    assert(text::texts(pieces@).take(pieces@.len() as int) =~= text::texts(pieces@));
    out
}

/// The lines, each with a line feed behind it.
pub open spec fn unlines(ls: Seq<Seq<char>>) -> Seq<char>
    decreases ls.len(),
{
    if ls.len() == 0 {
        Seq::empty()
    } else {
        (unlines(ls.drop_last()) + ls.last()).push('\n')
    }
}

proof fn lemma_split_unlines(ls: Seq<Seq<char>>)
    requires
        forall|i: int| 0 <= i < ls.len() ==> !(#[trigger] ls[i]).contains('\n'),
    ensures
        split_on(unlines(ls), '\n') == ls.push(Seq::empty()),
    decreases ls.len(),
{
    let p = text::just('\n');
    if ls.len() == 0 {
        assert(split_on(unlines(ls), '\n') =~= ls.push(Seq::empty()));
    } else {
        let rest = ls.drop_last();
        let line = ls.last();
        assert forall|i: int| 0 <= i < rest.len() implies !(#[trigger] rest[i]).contains('\n') by {
            assert(rest[i] == ls[i]);
        }
        lemma_split_unlines(rest);
        let a = unlines(rest);
        assert(!ls[ls.len() - 1].contains('\n'));
        assert forall|i: int| 0 <= i < line.len() implies !p(#[trigger] line[i]) by {}
        lemma_split_unsplit(line, p);
        let none = Seq::<char>::empty();
        assert((a + line).push('\n') + none =~= unlines(ls));
        lemma_split_append(a + line, '\n', none, p);
        if rest.len() == 0 {
            assert(a + line =~= line);
            assert(split_on(unlines(ls), '\n') =~= ls.push(Seq::empty()));
        } else {
            let b = unlines(rest.drop_last()) + rest.last();
            assert(a == b.push('\n'));
            assert(a =~= b.push('\n') + none);
            lemma_split_append(b, '\n', none, p);
            assert(split_where(b, p) =~= rest) by {
                assert(split_where(a, p) == split_where(b, p) + seq![none]);
                assert(split_where(a, p).drop_last() =~= split_where(b, p));
                assert(rest.push(none).drop_last() =~= rest);
            }
            lemma_split_append(b, '\n', line, p);
            assert(split_where(a + line, p) == rest + seq![line]);
            assert(split_on(unlines(ls), '\n') =~= ls.push(Seq::empty()));
        }
    }
}

/// Lines written out are read back as they were, where none holds a line feed
/// or ends in a carriage return.
pub proof fn lines_of_unlines(ls: Seq<Seq<char>>)
    requires
        forall|i: int|
            0 <= i < ls.len() ==> !(#[trigger] ls[i]).contains('\n') && (ls[i].len() == 0
                || ls[i].last() != '\r'),
    ensures
        lines(unlines(ls)) == ls,
{
    lemma_split_unlines(ls);
    assert(lines(unlines(ls)) =~= ls);
}

/// The text before the first `c` and the text after it.
pub open spec fn split_once_at(s: Seq<char>, c: char) -> Option<(Seq<char>, Seq<char>)> {
    if s.contains(c) {
        let i = s.index_of_first(c).unwrap();
        Some((s.take(i), s.skip(i + 1)))
    } else {
        None
    }
}

/// The text before the last `c` and the text after it.
pub open spec fn rsplit_once_at(s: Seq<char>, c: char) -> Option<(Seq<char>, Seq<char>)> {
    if s.contains(c) {
        let i = s.index_of_last(c).unwrap();
        Some((s.take(i), s.skip(i + 1)))
    } else {
        None
    }
}

/// Splitting at the last separator undoes joining two texts with it, where
/// the second holds none.
pub proof fn rsplit_of_joined(a: Seq<char>, c: char, b: Seq<char>)
    requires
        !b.contains(c),
    ensures
        rsplit_once_at(a + seq![c] + b, c) == Some((a, b)),
{
    let s = a + seq![c] + b;
    let n = a.len() as int;
    assert(s[n] == c);
    s.index_of_last_ensures(c);
    let i = s.index_of_last(c).unwrap();
    assert forall|j: int| n < j < s.len() implies s[j] != c by {
        assert(s[j] == b[j - n - 1]);
    }
    assert(i == n);
    assert(s.take(n) =~= a);
    assert(s.skip(n + 1) =~= b);
}

/// `str::split_once` at a character.
pub fn split_once<'a>(s: &'a str, c: char) -> (r: Option<(&'a str, &'a str)>)
    ensures
        match r {
            Some((a, b)) => split_once_at(s@, c) == Some((a@, b@)),
            None => split_once_at(s@, c) is None,
        },
{
    let v = chars_of(s);
    let mut i: usize = 0;
    while i < v.len()
        invariant
            i <= v.len(),
            v@ == s@,
            forall|j: int| 0 <= j < i ==> s@[j] != c,
        decreases v.len() - i,
    {
        if v[i] == c {
            proof {
                s@.index_of_first_ensures(c);
                assert(s@[i as int] == c);
                assert(s@.take(i as int) =~= s@.subrange(0, i as int));
                assert(s@.skip(i + 1) =~= s@.subrange(i + 1, s@.len() as int));
            }
            return Some((s.substring_char(0, i), s.substring_char(i + 1, v.len())));
        }
        i += 1;
    }
    None
}

/// `str::rsplit_once` at a character.
pub fn rsplit_once<'a>(s: &'a str, c: char) -> (r: Option<(&'a str, &'a str)>)
    ensures
        match r {
            Some((a, b)) => rsplit_once_at(s@, c) == Some((a@, b@)),
            None => rsplit_once_at(s@, c) is None,
        },
{
    let v = chars_of(s);
    let mut i: usize = v.len();
    while i > 0
        invariant
            i <= v.len(),
            v@ == s@,
            forall|j: int| i <= j < v.len() ==> s@[j] != c,
        decreases i,
    {
        i -= 1;
        if v[i] == c {
            proof {
                s@.index_of_last_ensures(c);
                assert(s@[i as int] == c);
                assert(s@.take(i as int) =~= s@.subrange(0, i as int));
                assert(s@.skip(i + 1) =~= s@.subrange(i + 1, s@.len() as int));
            }
            return Some((s.substring_char(0, i), s.substring_char(i + 1, v.len())));
        }
    }
    None
}

/// The text before the first `c`, or all of it.
pub fn before_first<'a>(s: &'a str, c: char) -> (r: &'a str)
    ensures
        r@ == split_on(s@, c)[0],
{
    let v = chars_of(s);
    let mut i: usize = 0;
    while i < v.len() && v[i] != c
        invariant
            i <= v.len(),
            v@ == s@,
            forall|j: int| 0 <= j < i ==> #[trigger] s@[j] != c,
        decreases v.len() - i,
    {
        i += 1;
    }
    proof {
        lemma_split_first(s@, text::just(c), i as int);
        assert(s@.take(i as int) =~= s@.subrange(0, i as int));
    }
    s.substring_char(0, i)
}

} // verus!
