//! Texts taken apart and put together.
use vstd::prelude::*;

use crate::split;
use crate::text;

verus! {

/// Putting together the pieces of a text gives it back: pieces without the
/// separator are found again, in their order.
pub proof fn pieces_are_found_again(pieces: Seq<Seq<char>>, c: char)
    requires
        pieces.len() > 0,
        forall|i: int| 0 <= i < pieces.len() ==> !(#[trigger] pieces[i]).contains(c),
    ensures
        split::split_on(split::join(pieces, seq![c]), c) == pieces,
    decreases pieces.len(),
{
    let whole = split::join(pieces, seq![c]);
    let last = pieces.last();
    assert(!pieces[pieces.len() - 1].contains(c));
    assert forall|i: int| 0 <= i < last.len() implies !text::just(c)(#[trigger] last[i]) by {
        assert(last.contains(last[i]));
    }
    split::lemma_split_unsplit(last, text::just(c));
    if pieces.len() == 1 {
        assert(pieces =~= seq![last]);
    } else {
        let front = pieces.drop_last();
        assert forall|i: int| 0 <= i < front.len() implies !(#[trigger] front[i]).contains(c) by {
            assert(front[i] == pieces[i]);
        }
        pieces_are_found_again(front, c);
        let before = split::join(front, seq![c]);
        assert(whole =~= before.push(c) + last);
        split::lemma_split_append(before, c, last, text::just(c));
        assert(front + seq![last] =~= pieces);
    }
}

proof fn lemma_filter_whole(s: Seq<Seq<char>>)
    requires
        forall|i: int| 0 <= i < s.len() ==> (#[trigger] s[i]).len() > 0,
    ensures
        s.filter(|w: Seq<char>| w.len() > 0) == s,
    decreases s.len(),
{
    reveal(Seq::filter);
    if s.len() > 0 {
        let front = s.drop_last();
        assert forall|i: int| 0 <= i < front.len() implies (#[trigger] front[i]).len() > 0 by {
            assert(front[i] == s[i]);
        }
        lemma_filter_whole(front);
        assert(s[s.len() - 1] == s.last());
        assert(front.push(s.last()) =~= s);
    }
}

/// Words with single spaces between them are found again, in their order.
pub proof fn words_are_found_again(words: Seq<Seq<char>>)
    requires
        words.len() > 0,
        forall|i: int| 0 <= i < words.len() ==> (#[trigger] words[i]).len() > 0,
        forall|i: int, k: int|
            0 <= i < words.len() && 0 <= k < words[i].len() ==> '!' <= #[trigger] words[i][k] <= '~',
    ensures
        split::words(split::join(words, " "@)) == words,
{
    reveal_strlit(" ");
    assert(" "@ =~= seq![' ']);
    lemma_words_split(words);
    lemma_filter_whole(words);
}

proof fn lemma_words_split(words: Seq<Seq<char>>)
    requires
        words.len() > 0,
        forall|i: int, k: int|
            0 <= i < words.len() && 0 <= k < words[i].len() ==> '!' <= #[trigger] words[i][k] <= '~',
    ensures
        split::split_where(split::join(words, seq![' ']), text::whites()) == words,
    decreases words.len(),
{
    let whole = split::join(words, seq![' ']);
    let last = words.last();
    let n = words.len() - 1;
    assert forall|i: int| 0 <= i < last.len() implies !text::whites()(#[trigger] last[i]) by {
        assert('!' <= words[n][i] <= '~');
    }
    split::lemma_split_unsplit(last, text::whites());
    if words.len() == 1 {
        assert(words =~= seq![last]);
    } else {
        let front = words.drop_last();
        assert forall|i: int, k: int| 0 <= i < front.len() && 0 <= k < front[i].len() implies '!'
            <= #[trigger] front[i][k] <= '~' by {
            assert('!' <= words[i][k] <= '~');
        }
        lemma_words_split(front);
        let before = split::join(front, seq![' ']);
        assert(whole =~= before.push(' ') + last);
        assert(text::is_white(' '));
        split::lemma_split_append(before, ' ', last, text::whites());
        assert(front + seq![last] =~= words);
    }
}

/// Trimming takes the blanks off both ends and nothing else.
pub proof fn trimming_takes_off_blanks(before: Seq<char>, s: Seq<char>, after: Seq<char>)
    requires
        s.len() > 0,
        '!' <= s[0] <= '~',
        '!' <= s.last() <= '~',
        forall|i: int| 0 <= i < before.len() ==> #[trigger] before[i] == ' ' || before[i] == '\t',
        forall|i: int| 0 <= i < after.len() ==> #[trigger] after[i] == ' ' || after[i] == '\t',
    ensures
        text::trim(before + s + after) == s,
{
    lemma_trim_front(before, s + after);
    assert(before + s + after =~= before + (s + after));
    lemma_trim_back(s, after);
}

proof fn lemma_trim_front(before: Seq<char>, s: Seq<char>)
    requires
        s.len() > 0,
        !text::is_white(s[0]),
        forall|i: int| 0 <= i < before.len() ==> text::is_white(#[trigger] before[i]),
    ensures
        text::trim_start_where(before + s, text::whites()) == s,
    decreases before.len(),
{
    let whole = before + s;
    if before.len() == 0 {
        assert(whole =~= s);
    } else {
        assert(text::is_white(before[0]));
        assert(whole[0] == before[0]);
        assert(whole.drop_first() =~= before.drop_first() + s);
        lemma_trim_front(before.drop_first(), s);
    }
}

proof fn lemma_trim_back(s: Seq<char>, after: Seq<char>)
    requires
        s.len() > 0,
        !text::is_white(s.last()),
        forall|i: int| 0 <= i < after.len() ==> text::is_white(#[trigger] after[i]),
    ensures
        text::trim_end_where(s + after, text::whites()) == s,
    decreases after.len(),
{
    let whole = s + after;
    if after.len() == 0 {
        assert(whole =~= s);
    } else {
        assert(text::is_white(after[after.len() - 1]));
        assert(whole.last() == after.last());
        assert(whole.drop_last() =~= s + after.drop_last());
        lemma_trim_back(s, after.drop_last());
    }
}

/// Texts are in order by the first byte in which they differ, and a text comes
/// before every longer one that begins with it.
pub proof fn texts_are_ordered_by_their_bytes(a: Seq<char>, b: Seq<char>, i: int)
    requires
        ({
            let x = vstd::utf8::encode_utf8(a);
            let y = vstd::utf8::encode_utf8(b);
            &&& 0 <= i <= x.len()
            &&& i <= y.len()
            &&& forall|k: int| 0 <= k < i ==> x[k] == y[k]
            &&& i == x.len() || (i < y.len() && x[i] < y[i])
        }),
    ensures
        text::text_le(a, b),
{
    lemma_bytes(vstd::utf8::encode_utf8(a), vstd::utf8::encode_utf8(b), i);
}

proof fn lemma_bytes(x: Seq<u8>, y: Seq<u8>, i: int)
    requires
        0 <= i <= x.len(),
        i <= y.len(),
        forall|k: int| 0 <= k < i ==> x[k] == y[k],
        i == x.len() || (i < y.len() && x[i] < y[i]),
    ensures
        text::bytes_le(x, y),
    decreases x.len(),
{
    if x.len() > 0 && i > 0 {
        assert(x[0] == y[0]);
        assert forall|k: int| 0 <= k < i - 1 implies x.drop_first()[k] == y.drop_first()[k] by {
            assert(x[k + 1] == y[k + 1]);
        }
        lemma_bytes(x.drop_first(), y.drop_first(), i - 1);
    }
}

} // verus!
