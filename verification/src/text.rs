//! Text as sequences of characters.
//!
//! Everything the program reads and writes is text: database entries, mount
//! tables, command lines, status messages. The spec functions here say what
//! each operation on text means, over `Seq<char>`; the executable functions
//! beside them compute it.
use vstd::prelude::*;

verus! {

// ---------------------------------------------------------------------------
// Building blocks
// ---------------------------------------------------------------------------

/// `String::push`: the character becomes the last one of the string.
pub assume_specification[ String::push ](s: &mut String, c: char)
    ensures
        final(s)@ == old(s)@.push(c),
;

/// `String::clear`: nothing is left of the string.
pub assume_specification[ String::clear ](s: &mut String)
    ensures
        final(s)@ == Seq::<char>::empty(),
;

/// `String::pop`: the last character is taken off and returned; an empty
/// string stays empty.
pub assume_specification[ String::pop ](s: &mut String) -> (r: Option<char>)
    ensures
        old(s)@.len() == 0 ==> r is None && final(s)@ == old(s)@,
        old(s)@.len() > 0 ==> r == Some(old(s)@.last()) && final(s)@ == old(s)@.drop_last(),
;

/// What `str::to_lowercase` makes of a text.
pub uninterp spec fn lowercase(s: Seq<char>) -> Seq<char>;

/// `str::to_lowercase`, whose result is a function of the text alone and is
/// named [`lowercase`]. Unicode's case mapping itself is not spelled out.
#[verifier::external_body]
pub(crate) fn to_lower(s: &str) -> (r: String)
    ensures
        r@ == lowercase(s@),
{
    s.to_lowercase()
}

/// The contents of a list of strings.
pub open spec fn texts(v: Seq<String>) -> Seq<Seq<char>> {
    Seq::new(v.len(), |i: int| v[i]@)
}

/// The contents of a list of string slices.
pub open spec fn str_texts(v: Seq<&str>) -> Seq<Seq<char>> {
    Seq::new(v.len(), |i: int| v[i]@)
}

/// The characters of `s`, in order.
pub fn chars_of(s: &str) -> (r: Vec<char>)
    ensures
        r@ == s@,
{
    let mut out: Vec<char> = Vec::new();
    for c in it: s.chars()
        invariant
            out@ == s@.take(it.index()),
            it.seq() == s@,
    {
        out.push(c);
    }
    out
}

/// The characters of `v` between `from` and `to`, as a string.
pub fn string_of(v: &Vec<char>, from: usize, to: usize) -> (r: String)
    requires
        from <= to <= v.len(),
    ensures
        r@ == v@.subrange(from as int, to as int),
{
    let mut out = String::new();
    let mut i: usize = from;
    while i < to
        invariant
            from <= i <= to <= v.len(),
            out@ == v@.subrange(from as int, i as int),
        decreases to - i,
    {
        out.push(v[i]);
        i += 1;
    }
    out
}

/// A copy of a list of strings.
pub fn copy_texts(v: &Vec<String>) -> (r: Vec<String>)
    ensures
        texts(r@) == texts(v@),
        r@ == v@,
{
    let mut out: Vec<String> = Vec::new();
    let mut i: usize = 0;
    while i < v.len()
        invariant
            i <= v.len(),
            out@ == v@.take(i as int),
        decreases v.len() - i,
    {
        out.push(v[i].clone());
        i += 1;
    }
    out
}

/// The first `n` of a list of strings, or all of them where there are fewer.
pub fn first_texts(v: &Vec<String>, n: usize) -> (r: Vec<String>)
    ensures
        texts(r@) == (if n <= v@.len() {
            texts(v@).take(n as int)
        } else {
            texts(v@)
        }),
{
    let ghost all = texts(v@);
    let mut out: Vec<String> = Vec::new();
    let mut i: usize = 0;
    while i < v.len() && i < n
        invariant
            i <= v.len(),
            i <= n,
            all == texts(v@),
            texts(out@) == all.take(i as int),
        decreases v.len() - i,
    {
        add_text(&mut out, v[i].clone());
        i += 1;
    }
    out
}

/// Adds a string at the end of a list.
pub fn add_text(list: &mut Vec<String>, s: String)
    ensures
        texts(final(list)@) == texts(old(list)@).push(s@),
{
    list.push(s);
    assert(texts(list@) =~= texts(old(list)@).push(s@));
}

/// Adds a list of strings at the end of another.
pub fn add_texts(list: &mut Vec<String>, more: Vec<String>)
    ensures
        texts(final(list)@) == texts(old(list)@) + texts(more@),
{
    let mut more = more;
    let ghost added = texts(more@);
    list.append(&mut more);
    assert(texts(list@) =~= texts(old(list)@) + added);
}

/// Two pieces of text, one after the other.
pub fn concat2(a: &str, b: &str) -> (r: String)
    ensures
        r@ == a@ + b@,
{
    let mut out = a.to_owned();
    out.append(b);
    out
}

/// Three pieces of text, one after the other.
pub fn concat3(a: &str, b: &str, c: &str) -> (r: String)
    ensures
        r@ == a@ + b@ + c@,
{
    let mut out = a.to_owned();
    out.append(b);
    out.append(c);
    out
}

// ---------------------------------------------------------------------------
// Order and equality
// ---------------------------------------------------------------------------

/// Lexicographic order of byte sequences.
pub open spec fn bytes_le(a: Seq<u8>, b: Seq<u8>) -> bool
    decreases a.len(),
{
    a.len() == 0 || (b.len() > 0 && (a[0] < b[0] || (a[0] == b[0] && bytes_le(
        a.drop_first(),
        b.drop_first(),
    ))))
}

/// The order of texts: lexicographic, by the bytes of their UTF-8 encoding.
pub open spec fn text_le(a: Seq<char>, b: Seq<char>) -> bool {
    bytes_le(vstd::utf8::encode_utf8(a), vstd::utf8::encode_utf8(b))
}

proof fn lemma_bytes_le_reflexive(a: Seq<u8>)
    ensures
        bytes_le(a, a),
    decreases a.len(),
{
    if a.len() > 0 {
        lemma_bytes_le_reflexive(a.drop_first());
    }
}

proof fn lemma_bytes_le_total(a: Seq<u8>, b: Seq<u8>)
    ensures
        bytes_le(a, b) || bytes_le(b, a),
    decreases a.len(),
{
    if a.len() > 0 && b.len() > 0 {
        lemma_bytes_le_total(a.drop_first(), b.drop_first());
    }
}

proof fn lemma_bytes_le_antisymmetric(a: Seq<u8>, b: Seq<u8>)
    requires
        bytes_le(a, b),
        bytes_le(b, a),
    ensures
        a == b,
    decreases a.len(),
{
    if a.len() > 0 && b.len() > 0 {
        lemma_bytes_le_antisymmetric(a.drop_first(), b.drop_first());
        assert(a =~= seq![a[0]] + a.drop_first());
        assert(b =~= seq![b[0]] + b.drop_first());
    } else {
        assert(a =~= b);
    }
}

proof fn lemma_bytes_le_transitive(a: Seq<u8>, b: Seq<u8>, c: Seq<u8>)
    requires
        bytes_le(a, b),
        bytes_le(b, c),
    ensures
        bytes_le(a, c),
    decreases a.len(),
{
    if a.len() > 0 && a[0] == b[0] && b[0] == c[0] {
        lemma_bytes_le_transitive(a.drop_first(), b.drop_first(), c.drop_first());
    }
}

/// Texts are told apart by their encoding.
pub proof fn lemma_encoding_injective(a: Seq<char>, b: Seq<char>)
    requires
        vstd::utf8::encode_utf8(a) == vstd::utf8::encode_utf8(b),
    ensures
        a == b,
{
    vstd::utf8::encode_utf8_decode_utf8(a);
    vstd::utf8::encode_utf8_decode_utf8(b);
}

/// The order of texts is a total order.
pub proof fn text_order_is_total()
    ensures
        vstd::relations::total_ordering(|a: Seq<char>, b: Seq<char>| text_le(a, b)),
        forall|a: Seq<char>| text_le(a, a),
        forall|a: Seq<char>, b: Seq<char>| text_le(a, b) || text_le(b, a),
        forall|a: Seq<char>, b: Seq<char>| text_le(a, b) && text_le(b, a) ==> a == b,
        forall|a: Seq<char>, b: Seq<char>, c: Seq<char>|
            #![trigger text_le(a, b), text_le(b, c)]
            text_le(a, b) && text_le(b, c) ==> text_le(a, c),
{
    assert forall|a: Seq<char>| text_le(a, a) by {
        lemma_bytes_le_reflexive(vstd::utf8::encode_utf8(a));
    }
    assert forall|a: Seq<char>, b: Seq<char>| text_le(a, b) || text_le(b, a) by {
        lemma_bytes_le_total(vstd::utf8::encode_utf8(a), vstd::utf8::encode_utf8(b));
    }
    assert forall|a: Seq<char>, b: Seq<char>| text_le(a, b) && text_le(b, a) implies a == b by {
        lemma_bytes_le_antisymmetric(vstd::utf8::encode_utf8(a), vstd::utf8::encode_utf8(b));
        lemma_encoding_injective(a, b);
    }
    assert forall|a: Seq<char>, b: Seq<char>, c: Seq<char>|
        #![trigger text_le(a, b), text_le(b, c)]
        text_le(a, b) && text_le(b, c) implies text_le(a, c) by {
        lemma_bytes_le_transitive(vstd::utf8::encode_utf8(a), vstd::utf8::encode_utf8(b), vstd::utf8::encode_utf8(c));
    }
}

proof fn lemma_bytes_le_common(a: Seq<u8>, b: Seq<u8>, i: int)
    requires
        0 <= i <= a.len(),
        i <= b.len(),
        a.take(i) == b.take(i),
    ensures
        bytes_le(a, b) == bytes_le(a.skip(i), b.skip(i)),
    decreases i,
{
    if i == 0 {
        assert(a.skip(0) =~= a);
        assert(b.skip(0) =~= b);
    } else {
        assert(a[0] == a.take(i)[0]);
        assert(b[0] == b.take(i)[0]);
        assert(a.drop_first().take(i - 1) =~= a.take(i).drop_first());
        assert(b.drop_first().take(i - 1) =~= b.take(i).drop_first());
        lemma_bytes_le_common(a.drop_first(), b.drop_first(), i - 1);
        assert(a.drop_first().skip(i - 1) =~= a.skip(i));
        assert(b.drop_first().skip(i - 1) =~= b.skip(i));
    }
}

/// Bytes that are smaller where they first differ come first.
pub proof fn lemma_bytes_le_at(a: Seq<u8>, b: Seq<u8>, i: int)
    requires
        0 <= i < a.len(),
        i < b.len(),
        forall|k: int| 0 <= k < i ==> a[k] == b[k],
        a[i] < b[i],
    ensures
        bytes_le(a, b),
{
    assert(a.take(i) =~= b.take(i));
    lemma_bytes_le_common(a, b, i);
}

/// Whether `a` comes before `b` or is the same text.
pub fn at_most(a: &str, b: &str) -> (r: bool)
    ensures
        r == text_le(a@, b@),
{
    let x = a.as_bytes();
    let y = b.as_bytes();
    let mut i: usize = 0;
    while i < x.len() && i < y.len() && x[i] == y[i]
        invariant
            i <= x.len(),
            i <= y.len(),
            x@.take(i as int) == y@.take(i as int),
        decreases x.len() - i,
    {
        assert(x@.take(i + 1) =~= x@.take(i as int).push(x@[i as int]));
        assert(y@.take(i + 1) =~= y@.take(i as int).push(y@[i as int]));
        i += 1;
    }
    proof {
        lemma_bytes_le_common(x@, y@, i as int);
    }
    if i == x.len() {
        true
    } else if i == y.len() {
        false
    } else {
        x[i] < y[i]
    }
}

/// Whether two texts are the same.
pub fn same(a: &str, b: &str) -> (r: bool)
    ensures
        r == (a@ == b@),
{
    let x = a.as_bytes();
    let y = b.as_bytes();
    if x.len() != y.len() {
        return false;
    }
    let mut i: usize = 0;
    while i < x.len()
        invariant
            i <= x.len(),
            x.len() == y.len(),
            x@ == vstd::utf8::encode_utf8(a@),
            y@ == vstd::utf8::encode_utf8(b@),
            forall|j: int| 0 <= j < i ==> x@[j] == y@[j],
        decreases x.len() - i,
    {
        if x[i] != y[i] {
            return false;
        }
        i += 1;
    }
    assert(x@ =~= y@);
    proof {
        lemma_encoding_injective(a@, b@);
    }
    true
}

/// Whether `v` holds the text `s`.
pub fn list_contains(v: &Vec<String>, s: &str) -> (r: bool)
    ensures
        r == texts(v@).contains(s@),
{
    let mut i: usize = 0;
    while i < v.len()
        invariant
            i <= v.len(),
            forall|j: int| 0 <= j < i ==> texts(v@)[j] != s@,
        decreases v.len() - i,
    {
        if same(v[i].as_str(), s) {
            assert(texts(v@)[i as int] == s@);
            return true;
        }
        i += 1;
    }
    false
}

// ---------------------------------------------------------------------------
// White space and trimming
// ---------------------------------------------------------------------------

/// The characters with Unicode's `White_Space` property.
pub open spec fn is_white(c: char) -> bool {
    let n = c as int;
    ||| 0x9 <= n <= 0xd
    ||| n == 0x20
    ||| n == 0x85
    ||| n == 0xa0
    ||| n == 0x1680
    ||| 0x2000 <= n <= 0x200a
    ||| n == 0x2028
    ||| n == 0x2029
    ||| n == 0x202f
    ||| n == 0x205f
    ||| n == 0x3000
}

/// Whether a character is white space.
pub fn white(c: char) -> (r: bool)
    ensures
        r == is_white(c),
{
    let n: u32 = c as u32;
    (0x9 <= n && n <= 0xd) || n == 0x20 || n == 0x85 || n == 0xa0 || n == 0x1680 || (0x2000 <= n
        && n <= 0x200a) || n == 0x2028 || n == 0x2029 || n == 0x202f || n == 0x205f || n == 0x3000
}

/// The test for white space.
pub open spec fn whites() -> spec_fn(char) -> bool {
    |c: char| is_white(c)
}

/// The test for one character.
pub open spec fn just(c: char) -> spec_fn(char) -> bool {
    |x: char| x == c
}

/// `s` without the characters satisfying `p` at its start.
pub open spec fn trim_start_where(s: Seq<char>, p: spec_fn(char) -> bool) -> Seq<char>
    decreases s.len(),
{
    if s.len() > 0 && p(s[0]) {
        trim_start_where(s.drop_first(), p)
    } else {
        s
    }
}

/// `s` without the characters satisfying `p` at its end.
pub open spec fn trim_end_where(s: Seq<char>, p: spec_fn(char) -> bool) -> Seq<char>
    decreases s.len(),
{
    if s.len() > 0 && p(s.last()) {
        trim_end_where(s.drop_last(), p)
    } else {
        s
    }
}

/// `s` without the white space around it.
pub open spec fn trim(s: Seq<char>) -> Seq<char> {
    trim_end_where(trim_start_where(s, whites()), whites())
}

proof fn lemma_trim_start(s: Seq<char>, p: spec_fn(char) -> bool, i: int)
    requires
        0 <= i <= s.len(),
        forall|j: int| 0 <= j < i ==> p(#[trigger] s[j]),
        i < s.len() ==> !p(s[i]),
    ensures
        trim_start_where(s, p) == s.skip(i),
    decreases i,
{
    if i == 0 {
        assert(s.skip(0) =~= s);
    } else {
        assert(p(s[0]));
        assert forall|j: int| 0 <= j < i - 1 implies p(#[trigger] s.drop_first()[j]) by {
            assert(s.drop_first()[j] == s[j + 1]);
        }
        lemma_trim_start(s.drop_first(), p, i - 1);
        assert(s.drop_first().skip(i - 1) =~= s.skip(i));
    }
}

proof fn lemma_trim_end(s: Seq<char>, p: spec_fn(char) -> bool, i: int)
    requires
        0 <= i <= s.len(),
        forall|j: int| i <= j < s.len() ==> p(#[trigger] s[j]),
        i > 0 ==> !p(s[i - 1]),
    ensures
        trim_end_where(s, p) == s.take(i),
    decreases s.len(),
{
    if i == s.len() {
        assert(s.take(i) =~= s);
    } else {
        assert(p(s.last()));
        lemma_trim_end(s.drop_last(), p, i);
        assert(s.drop_last().take(i) =~= s.take(i));
    }
}

/// `str::trim`: the text without the white space around it.
pub fn trimmed(s: &str) -> (r: &str)
    ensures
        r@ == trim(s@),
{
    let v = chars_of(s);
    let ghost p = whites();
    let mut from: usize = 0;
    while from < v.len() && white(v[from])
        invariant
            from <= v.len(),
            v@ == s@,
            forall|j: int| 0 <= j < from ==> is_white(#[trigger] v@[j]),
        decreases v.len() - from,
    {
        from += 1;
    }
    proof {
        lemma_trim_start(s@, p, from as int);
    }
    let mut to: usize = v.len();
    while to > from && white(v[to - 1])
        invariant
            from <= to <= v.len(),
            v@ == s@,
            forall|j: int| to <= j < v.len() ==> is_white(#[trigger] v@[j]),
        decreases to,
    {
        to -= 1;
    }
    proof {
        let rest = s@.skip(from as int);
        assert forall|j: int| to - from <= j < rest.len() implies p(#[trigger] rest[j]) by {
            assert(rest[j] == v@[j + from]);
        }
        lemma_trim_end(rest, p, to - from);
        assert(rest.take(to - from) =~= s@.subrange(from as int, to as int));
    }
    s.substring_char(from, to)
}

/// The text without the occurrences of `c` at its start.
pub fn trimmed_start_of(s: &str, c: char) -> (r: &str)
    ensures
        r@ == trim_start_where(s@, just(c)),
{
    let v = chars_of(s);
    let mut from: usize = 0;
    while from < v.len() && v[from] == c
        invariant
            from <= v.len(),
            v@ == s@,
            forall|j: int| 0 <= j < from ==> #[trigger] v@[j] == c,
        decreases v.len() - from,
    {
        from += 1;
    }
    proof {
        lemma_trim_start(s@, just(c), from as int);
        assert(s@.skip(from as int) =~= s@.subrange(from as int, s@.len() as int));
    }
    s.substring_char(from, v.len())
}

/// The text without the occurrences of `c` at its end.
pub fn trimmed_end_of(s: &str, c: char) -> (r: &str)
    ensures
        r@ == trim_end_where(s@, just(c)),
{
    let v = chars_of(s);
    let mut to: usize = v.len();
    while to > 0 && v[to - 1] == c
        invariant
            to <= v.len(),
            v@ == s@,
            forall|j: int| to <= j < v.len() ==> #[trigger] v@[j] == c,
        decreases to,
    {
        to -= 1;
    }
    proof {
        lemma_trim_end(s@, just(c), to as int);
        assert(s@.take(to as int) =~= s@.subrange(0, to as int));
    }
    s.substring_char(0, to)
}

// ---------------------------------------------------------------------------
// Prefixes, suffixes, occurrences
// ---------------------------------------------------------------------------

/// Whether `p` opens `s`.
pub open spec fn starts(s: Seq<char>, p: Seq<char>) -> bool {
    p.len() <= s.len() && s.take(p.len() as int) == p
}

/// Whether `p` closes `s`.
pub open spec fn ends(s: Seq<char>, p: Seq<char>) -> bool {
    p.len() <= s.len() && s.skip(s.len() - p.len()) == p
}

/// Whether `p` occurs in `s` at position `i`.
pub open spec fn occurs_at(s: Seq<char>, p: Seq<char>, i: int) -> bool {
    0 <= i <= s.len() - p.len() && s.subrange(i, i + p.len()) == p
}

/// Whether `p` occurs in `s`.
pub open spec fn occurs(s: Seq<char>, p: Seq<char>) -> bool {
    exists|i: int| #[trigger] occurs_at(s, p, i)
}

/// Whether `p` stands in `s` from position `at` on.
fn stands_at(s: &Vec<char>, p: &Vec<char>, at: usize) -> (r: bool)
    requires
        at + p.len() <= s.len(),
    ensures
        r == occurs_at(s@, p@, at as int),
{
    let mut i: usize = 0;
    while i < p.len()
        invariant
            i <= p.len(),
            at + p.len() <= s.len(),
            forall|j: int| 0 <= j < i ==> s@[at + j] == p@[j],
        decreases p.len() - i,
    {
        if s[at + i] != p[i] {
            assert(s@.subrange(at as int, at + p.len())[i as int] == s@[at + i]);
            return false;
        }
        i += 1;
    }
    assert(s@.subrange(at as int, at + p.len()) =~= p@);
    true
}

/// Whether `p` opens the characters of `v`.
pub fn prefix_in(v: &Vec<char>, p: &str) -> (r: bool)
    ensures
        r == starts(v@, p@),
{
    let mut i: usize = 0;
    for c in it: p.chars()
        invariant
            it.seq() == p@,
            i == it.index(),
            i <= v.len(),
            forall|j: int| 0 <= j < i ==> v@[j] == p@[j],
    {
        if i >= v.len() || v[i] != c {
            proof {
                if p@.len() <= v@.len() {
                    assert(v@.take(p@.len() as int)[i as int] == v@[i as int]);
                    assert(p@[i as int] == c);
                }
            }
            return false;
        }
        i += 1;
    }
    assert(v@.take(p@.len() as int) =~= p@);
    true
}

/// Whether `p` closes the characters of `v`.
pub fn suffix_in(v: &Vec<char>, p: &str) -> (r: bool)
    ensures
        r == ends(v@, p@),
{
    let n: usize = p.unicode_len();
    if n > v.len() {
        return false;
    }
    let from: usize = v.len() - n;
    let mut i: usize = 0;
    for c in it: p.chars()
        invariant
            it.seq() == p@,
            i == it.index(),
            n == p@.len(),
            from == v.len() - n,
            n <= v.len(),
            forall|j: int| 0 <= j < i ==> v@[from + j] == p@[j],
    {
        if v[from + i] != c {
            proof {
                assert(v@.skip(from as int)[i as int] == v@[from + i]);
                assert(p@[i as int] == c);
            }
            return false;
        }
        i += 1;
    }
    assert(v@.skip(from as int) =~= p@);
    true
}

/// `str::starts_with`.
pub fn starts_with(s: &str, p: &str) -> (r: bool)
    ensures
        r == starts(s@, p@),
{
    prefix_in(&chars_of(s), p)
}

/// `str::ends_with`.
pub fn ends_with(s: &str, p: &str) -> (r: bool)
    ensures
        r == ends(s@, p@),
{
    suffix_in(&chars_of(s), p)
}

/// `str::contains`.
pub fn contains(s: &str, p: &str) -> (r: bool)
    ensures
        r == occurs(s@, p@),
{
    let v = chars_of(s);
    let w = chars_of(p);
    if w.len() > v.len() {
        return false;
    }
    let last: usize = v.len() - w.len();
    let mut i: usize = 0;
    loop
        invariant
            i <= last,
            last == v.len() - w.len(),
            w.len() <= v.len(),
            v@ == s@,
            w@ == p@,
            forall|j: int| 0 <= j < i ==> !#[trigger] occurs_at(s@, p@, j),
        decreases last - i,
    {
        if stands_at(&v, &w, i) {
            return true;
        }
        if i == last {
            return false;
        }
        i += 1;
    }
}

/// What stands in `s` before the first occurrence of `p`, or all of `s`.
pub open spec fn before_occurrence(s: Seq<char>, p: Seq<char>) -> Seq<char> {
    if occurs(s, p) {
        s.take(first_occurrence(s, p))
    } else {
        s
    }
}

/// Where `p` first occurs in `s`.
pub open spec fn first_occurrence(s: Seq<char>, p: Seq<char>) -> int {
    choose|i: int| is_first_occurrence(s, p, i)
}

/// Whether `p` occurs in `s` at `i` and nowhere before.
pub open spec fn is_first_occurrence(s: Seq<char>, p: Seq<char>, i: int) -> bool {
    occurs_at(s, p, i) && forall|j: int| 0 <= j < i ==> !#[trigger] occurs_at(s, p, j)
}

/// The text before the first occurrence of `p`, or all of it.
pub fn before_text<'a>(s: &'a str, p: &str) -> (r: &'a str)
    ensures
        r@ == before_occurrence(s@, p@),
{
    let v = chars_of(s);
    let w = chars_of(p);
    if w.len() > v.len() {
        return s;
    }
    let last: usize = v.len() - w.len();
    let mut i: usize = 0;
    loop
        invariant
            i <= last,
            last == v.len() - w.len(),
            w.len() <= v.len(),
            v@ == s@,
            w@ == p@,
            forall|j: int| 0 <= j < i ==> !#[trigger] occurs_at(s@, p@, j),
        decreases last - i,
    {
        if stands_at(&v, &w, i) {
            proof {
                assert(is_first_occurrence(s@, p@, i as int));
                let k = first_occurrence(s@, p@);
                assert(is_first_occurrence(s@, p@, k));
                assert(k == i) by {
                    if k < i {
                        assert(occurs_at(s@, p@, k));
                    } else if i < k {
                        assert(occurs_at(s@, p@, i as int));
                    }
                }
                assert(s@.take(i as int) =~= s@.subrange(0, i as int));
            }
            return s.substring_char(0, i);
        }
        if i == last {
            return s;
        }
        i += 1;
    }
}

/// Whether `s` holds the character `c`.
pub fn contains_char(s: &str, c: char) -> (r: bool)
    ensures
        r == s@.contains(c),
{
    let v = chars_of(s);
    let mut i: usize = 0;
    while i < v.len()
        invariant
            i <= v.len(),
            v@ == s@,
            forall|j: int| 0 <= j < i ==> v@[j] != c,
        decreases v.len() - i,
    {
        if v[i] == c {
            assert(s@[i as int] == c);
            return true;
        }
        i += 1;
    }
    false
}

/// `str::strip_prefix`.
pub fn strip_prefix<'a>(s: &'a str, p: &str) -> (r: Option<&'a str>)
    ensures
        match r {
            Some(t) => starts(s@, p@) && t@ == s@.skip(p@.len() as int),
            None => !starts(s@, p@),
        },
{
    if starts_with(s, p) {
        proof {
            assert(s@.skip(p@.len() as int) =~= s@.subrange(p@.len() as int, s@.len() as int));
        }
        Some(s.substring_char(p.unicode_len(), s.unicode_len()))
    } else {
        None
    }
}

/// `str::strip_suffix`.
pub fn strip_suffix<'a>(s: &'a str, p: &str) -> (r: Option<&'a str>)
    ensures
        match r {
            Some(t) => ends(s@, p@) && t@ == s@.take(s@.len() - p@.len()),
            None => !ends(s@, p@),
        },
{
    if ends_with(s, p) {
        proof {
            assert(s@.take(s@.len() - p@.len()) =~= s@.subrange(0, s@.len() - p@.len()));
        }
        Some(s.substring_char(0, s.unicode_len() - p.unicode_len()))
    } else {
        None
    }
}

} // verus!
