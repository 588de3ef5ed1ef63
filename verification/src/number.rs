//! Numbers as text.
use vstd::prelude::*;

use crate::text::chars_of;

verus! {

/// The character of a decimal digit.
pub open spec fn digit(d: nat) -> char {
    ('0' as int + d) as char
}

/// Whether a character is a decimal digit.
pub open spec fn is_digit(c: char) -> bool {
    '0' <= c <= '9'
}

/// The value of a decimal digit.
pub open spec fn digit_value(c: char) -> nat {
    (c as int - '0' as int) as nat
}

/// The decimal digits of `n`, without leading zeros.
pub open spec fn decimal(n: nat) -> Seq<char>
    decreases n,
{
    if n < 10 {
        seq![digit(n)]
    } else {
        decimal(n / 10).push(digit(n % 10))
    }
}

/// The decimal form of an integer, with a minus sign in front of a negative one.
pub open spec fn signed_decimal(i: int) -> Seq<char> {
    if i < 0 {
        seq!['-'] + decimal((-i) as nat)
    } else {
        decimal(i as nat)
    }
}

/// Whether `s` is made of decimal digits alone, at least one of them.
pub open spec fn all_digits(s: Seq<char>) -> bool {
    s.len() > 0 && forall|i: int| 0 <= i < s.len() ==> is_digit(#[trigger] s[i])
}

/// The number that a sequence of decimal digits denotes.
pub open spec fn digits_value(s: Seq<char>) -> nat
    decreases s.len(),
{
    if s.len() == 0 {
        0
    } else {
        digits_value(s.drop_last()) * 10 + digit_value(s.last())
    }
}

/// The number that `s` denotes: digits, with a plus sign in front of them or
/// not, and no more than `limit`.
pub open spec fn unsigned(s: Seq<char>, limit: nat) -> Option<nat> {
    let body = if s.len() > 0 && s[0] == '+' {
        s.drop_first()
    } else {
        s
    };
    if all_digits(body) && digits_value(body) <= limit {
        Some(digits_value(body))
    } else {
        None
    }
}

/// The integer that `s` denotes: digits, with a sign in front of them or not,
/// within the range of `i64`.
pub open spec fn integer(s: Seq<char>) -> Option<int> {
    if s.len() > 0 && s[0] == '-' {
        match unsigned_body(s.drop_first()) {
            Some(n) => if -(n as int) >= i64::MIN {
                Some(-(n as int))
            } else {
                None
            },
            None => None,
        }
    } else {
        match unsigned(s, i64::MAX as nat) {
            Some(n) => Some(n as int),
            None => None,
        }
    }
}

/// The number that digits alone denote.
pub open spec fn unsigned_body(s: Seq<char>) -> Option<nat> {
    if all_digits(s) {
        Some(digits_value(s))
    } else {
        None
    }
}

/// Appends the decimal digits of `n`.
fn push_decimal(out: &mut String, n: u64)
    ensures
        final(out)@ == old(out)@ + decimal(n as nat),
    decreases n,
{
    if n >= 10 {
        push_decimal(out, n / 10);
    }
    let d: u8 = (n % 10) as u8;
    out.push((48u8 + d) as char);
    assert(out@ =~= old(out)@ + decimal(n as nat));
}

/// The decimal form of a number.
pub fn number(n: u64) -> (r: String)
    ensures
        r@ == decimal(n as nat),
{
    let mut out = String::new();
    push_decimal(&mut out, n);
    assert(out@ =~= decimal(n as nat));
    out
}

/// The decimal form of a count.
pub fn count(n: usize) -> (r: String)
    ensures
        r@ == decimal(n as nat),
{
    number(n as u64)
}

/// The decimal form of an integer.
pub fn signed(i: i64) -> (r: String)
    ensures
        r@ == signed_decimal(i as int),
{
    if i < 0 {
        let mut out = String::new();
        out.push('-');
        let magnitude: u64 = if i == i64::MIN {
            9223372036854775808
        } else {
            (-i) as u64
        };
        push_decimal(&mut out, magnitude);
        assert(out@ =~= signed_decimal(i as int));
        out
    } else {
        number(i as u64)
    }
}

proof fn lemma_digits_value_grows(s: Seq<char>, i: int)
    requires
        0 <= i <= s.len(),
    ensures
        digits_value(s.take(i)) <= digits_value(s),
    decreases s.len() - i,
{
    if i < s.len() {
        lemma_digits_value_grows(s, i + 1);
        assert(s.take(i + 1).drop_last() =~= s.take(i));
    } else {
        assert(s.take(i) =~= s);
    }
}

/// The number that the digits of `v` from position `from` on denote, where
/// they are digits and the number fits in 64 bits.
fn digits_from(v: &Vec<char>, from: usize) -> (r: Option<u64>)
    requires
        from <= v.len(),
    ensures
        match r {
            Some(n) => unsigned_body(v@.skip(from as int)) == Some(n as nat),
            None => match unsigned_body(v@.skip(from as int)) {
                Some(n) => n > u64::MAX,
                None => true,
            },
        },
{
    let ghost body = v@.skip(from as int);
    if from == v.len() {
        return None;
    }
    let mut value: u64 = 0;
    let mut i: usize = from;
    assert(body.take(0) =~= Seq::empty());
    while i < v.len()
        invariant
            from <= i <= v.len(),
            from < v.len(),
            body == v@.skip(from as int),
            forall|j: int| 0 <= j < i - from ==> is_digit(#[trigger] body[j]),
            value == digits_value(body.take(i - from)),
        decreases v.len() - i,
    {
        let c = v[i];
        assert(body[i - from] == c);
        if c < '0' || c > '9' {
            return None;
        }
        let d: u64 = (c as u32 - 48) as u64;
        proof {
            assert(body.take(i - from + 1).drop_last() =~= body.take(i - from));
            lemma_digits_value_grows(body, i - from + 1);
        }
        match value.checked_mul(10) {
            Some(ten) => match ten.checked_add(d) {
                Some(next) => {
                    value = next;
                },
                None => {
                    return None;
                },
            },
            None => {
                return None;
            },
        }
        i += 1;
    }
    assert(body.take(v.len() - from) =~= body);
    Some(value)
}

/// `str::parse::<u64>`.
pub fn parse_u64(s: &str) -> (r: Option<u64>)
    ensures
        match r {
            Some(n) => unsigned(s@, u64::MAX as nat) == Some(n as nat),
            None => unsigned(s@, u64::MAX as nat) is None,
        },
{
    let v = chars_of(s);
    assert(s@.len() > 0 ==> s@.skip(1) =~= s@.drop_first());
    assert(s@.skip(0) =~= s@);
    if v.len() > 0 && v[0] == '+' {
        digits_from(&v, 1)
    } else {
        digits_from(&v, 0)
    }
}

/// `str::parse::<usize>` where `usize` has 64 bits, and the same with its own
/// limit where it has fewer.
pub fn parse_usize(s: &str) -> (r: Option<usize>)
    ensures
        match r {
            Some(n) => unsigned(s@, usize::MAX as nat) == Some(n as nat),
            None => unsigned(s@, usize::MAX as nat) is None,
        },
{
    match parse_u64(s) {
        Some(n) => if n <= usize::MAX as u64 {
            Some(n as usize)
        } else {
            None
        },
        None => None,
    }
}

/// `str::parse::<i64>`.
pub fn parse_i64(s: &str) -> (r: Option<i64>)
    ensures
        match r {
            Some(n) => integer(s@) == Some(n as int),
            None => integer(s@) is None,
        },
{
    let v = chars_of(s);
    assert(s@.len() > 0 ==> s@.skip(1) =~= s@.drop_first());
    assert(s@.skip(0) =~= s@);
    if v.len() > 0 && v[0] == '-' {
        match digits_from(&v, 1) {
            Some(n) => if n < 9223372036854775808 {
                Some(-(n as i64))
            } else if n == 9223372036854775808 {
                Some(i64::MIN)
            } else {
                None
            },
            None => None,
        }
    } else {
        match parse_u64(s) {
            Some(n) => if n <= 9223372036854775807 {
                Some(n as i64)
            } else {
                None
            },
            None => None,
        }
    }
}

/// The decimal form of a number is made of digits, has no leading zero unless
/// it is zero, and denotes the number.
pub proof fn decimal_denotes(n: nat)
    ensures
        all_digits(decimal(n)),
        digits_value(decimal(n)) == n,
        n > 0 ==> decimal(n)[0] != digit(0),
    decreases n,
{
    if n < 10 {
        assert(decimal(n).drop_last() =~= Seq::<char>::empty());
        assert(digits_value(Seq::<char>::empty()) == 0);
        assert(digit_value(digit(n)) == n);
    } else {
        decimal_denotes(n / 10);
        assert(decimal(n).drop_last() =~= decimal(n / 10));
        assert(digit_value(digit(n % 10)) == n % 10);
        assert forall|i: int| 0 <= i < decimal(n).len() implies is_digit(
            #[trigger] decimal(n)[i],
        ) by {
            if i < decimal(n / 10).len() {
                assert(decimal(n)[i] == decimal(n / 10)[i]);
            }
        }
    }
}

/// Reading a number back from its decimal form gives the number.
pub proof fn number_round_trip(n: u64)
    ensures
        unsigned(decimal(n as nat), u64::MAX as nat) == Some(n as nat),
{
    decimal_denotes(n as nat);
    assert(is_digit(decimal(n as nat)[0]));
}

/// Reading an integer back from its decimal form gives the integer.
pub proof fn integer_round_trip(i: i64)
    ensures
        integer(signed_decimal(i as int)) == Some(i as int),
{
    if i < 0 {
        decimal_denotes((-i) as nat);
        assert(signed_decimal(i as int).drop_first() =~= decimal((-i) as nat));
    } else {
        decimal_denotes(i as nat);
        assert(is_digit(decimal(i as nat)[0]));
    }
}

/// `n`, or the largest 64-bit number where `n` is larger.
pub open spec fn saturated(n: nat) -> u64 {
    if n > u64::MAX {
        u64::MAX
    } else {
        n as u64
    }
}

/// `n`, or the largest count where `n` is larger.
pub open spec fn saturated_count(n: nat) -> usize {
    if n > usize::MAX {
        usize::MAX
    } else {
        n as usize
    }
}

// ---------------------------------------------------------------------------
// Padding
// ---------------------------------------------------------------------------

/// `n` times the same character.
pub open spec fn repeat(c: char, n: nat) -> Seq<char> {
    Seq::new(n, |i: int| c)
}

/// `s` with fill characters in front of it, `width` characters in all.
pub open spec fn pad_start(s: Seq<char>, width: nat, fill: char) -> Seq<char> {
    if s.len() >= width {
        s
    } else {
        repeat(fill, (width - s.len()) as nat) + s
    }
}

/// `s` with fill characters behind it, `width` characters in all.
pub open spec fn pad_end(s: Seq<char>, width: nat, fill: char) -> Seq<char> {
    if s.len() >= width {
        s
    } else {
        s + repeat(fill, (width - s.len()) as nat)
    }
}

/// The same character `n` times.
pub fn repeated(c: char, n: usize) -> (r: String)
    ensures
        r@ == repeat(c, n as nat),
{
    let mut out = String::new();
    let mut i: usize = 0;
    assert(out@ =~= repeat(c, 0));
    while i < n
        invariant
            i <= n,
            out@ == repeat(c, i as nat),
        decreases n - i,
    {
        out.push(c);
        i += 1;
        assert(out@ =~= repeat(c, i as nat));
    }
    out
}

/// The text, filled up on the left.
pub fn padded_start(s: &str, width: usize, fill: char) -> (r: String)
    ensures
        r@ == pad_start(s@, width as nat, fill),
{
    let len: usize = s.unicode_len();
    if len >= width {
        return s.to_owned();
    }
    let mut out = repeated(fill, width - len);
    out.append(s);
    out
}

/// The text, filled up on the right.
pub fn padded_end(s: &str, width: usize, fill: char) -> (r: String)
    ensures
        r@ == pad_end(s@, width as nat, fill),
{
    let len: usize = s.unicode_len();
    let mut out = s.to_owned();
    if len < width {
        out.append(repeated(fill, width - len).as_str());
    }
    out
}

/// The decimal form with leading zeros, `width` characters in all, its sign
/// included.
pub open spec fn zero_padded(i: int, width: nat) -> Seq<char> {
    if i < 0 {
        seq!['-'] + pad_start(decimal((-i) as nat), (width - 1) as nat, '0')
    } else {
        pad_start(decimal(i as nat), width, '0')
    }
}

/// An integer with leading zeros.
pub fn zeros(i: i64, width: usize) -> (r: String)
    requires
        width > 0,
        i > i64::MIN,
    ensures
        r@ == zero_padded(i as int, width as nat),
{
    if i < 0 {
        let mut out = String::new();
        out.push('-');
        out.append(padded_start(number((-i) as u64).as_str(), width - 1, '0').as_str());
        assert(out@ =~= zero_padded(i as int, width as nat));
        out
    } else {
        padded_start(number(i as u64).as_str(), width, '0')
    }
}

} // verus!
