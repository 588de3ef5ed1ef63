//! Figures as text: sizes, ages, dates and shares.
use vstd::prelude::*;

use crate::number;

verus! {

/// The number that a text of digits denotes.
pub open spec fn worth(s: Seq<char>) -> nat
    decreases s.len(),
{
    if s.len() == 0 {
        0
    } else {
        worth(s.drop_last()) * 10 + (s.last() as int - '0' as int) as nat
    }
}

/// A number is written in decimal digits that denote it, without a zero in
/// front.
pub proof fn numbers_are_written_in_decimal(n: nat)
    ensures
        worth(number::decimal(n)) == n,
        number::decimal(n).len() > 0,
        forall|i: int| 0 <= i < number::decimal(n).len() ==> '0' <= #[trigger] number::decimal(n)[i] <= '9',
        n > 0 ==> number::decimal(n)[0] != '0',
    decreases n,
{
    if n < 10 {
        let s = number::decimal(n);
        assert(s.drop_last() =~= Seq::empty());
        assert(worth(s.drop_last()) == 0);
    } else {
        numbers_are_written_in_decimal(n / 10);
        let s = number::decimal(n);
        assert(s.drop_last() =~= number::decimal(n / 10));
        assert forall|i: int| 0 <= i < s.len() implies '0' <= #[trigger] s[i] <= '9' by {
            if i < s.len() - 1 {
                assert(s[i] == number::decimal(n / 10)[i]);
            }
        }
        assert(s[0] == number::decimal(n / 10)[0]);
    }
}

/// Only digits are read as a number, with a plus sign in front of them if need
/// be, and the number must be within its limit.
pub proof fn numbers_are_read_from_digits(s: Seq<char>, limit: nat)
    ensures
        s.len() > 0 && worth(s) <= limit && (forall|i: int|
            0 <= i < s.len() ==> '0' <= #[trigger] s[i] <= '9') ==> number::unsigned(s, limit) == Some(
            worth(s),
        ) && number::unsigned(seq!['+'] + s, limit) == Some(worth(s)),
        worth(s) > limit && (forall|i: int| 0 <= i < s.len() ==> '0' <= #[trigger] s[i] <= '9')
            ==> number::unsigned(s, limit) is None,
        s.len() == 0 ==> number::unsigned(s, limit) is None,
        (exists|i: int| 0 < i < s.len() && !('0' <= #[trigger] s[i] <= '9')) ==> number::unsigned(
            s,
            limit,
        ) is None,
        s.len() > 0 && s[0] != '+' && !('0' <= s[0] <= '9') ==> number::unsigned(s, limit) is None,
{
    lemma_worth(s);
    let signed = seq!['+'] + s;
    assert(signed.drop_first() =~= s);
    if exists|i: int| 0 < i < s.len() && !('0' <= #[trigger] s[i] <= '9') {
        let i = choose|i: int| 0 < i < s.len() && !('0' <= #[trigger] s[i] <= '9');
        assert(!number::is_digit(s[i]));
        assert(s.drop_first()[i - 1] == s[i]);
    }
    if s.len() > 0 && s[0] != '+' && !('0' <= s[0] <= '9') {
        assert(!number::is_digit(s[0]));
    }
}

proof fn lemma_worth(s: Seq<char>)
    ensures
        number::digits_value(s) == worth(s),
    decreases s.len(),
{
    if s.len() > 0 {
        lemma_worth(s.drop_last());
    }
}

/// Whether a text shows a size in a unit: in tenths, cut and not rounded.
pub open spec fn shows_size(s: Seq<char>, value: u64, scale: nat, label: Seq<char>) -> bool {
    exists|whole: nat, tenths: nat|
        #![trigger number::decimal(whole), number::decimal(tenths)]
        {
            &&& s == number::decimal(whole) + "."@ + number::decimal(tenths) + " "@ + label
            &&& tenths < 10
            &&& (whole * 10 + tenths) * scale <= value * 10
            &&& value * 10 < (whole * 10 + tenths + 1) * scale
        }
}

/// Sizes are shown in the largest binary unit that they fill, bytes as they are
/// and the others with one place behind the point.
pub proof fn sizes_are_shown_in_their_unit(value: u64)
    ensures
        value < 1024 ==> crate::format::bytes_text(value) == number::decimal(value as nat) + " "@ + "B"@,
        1024 <= value < 1_048_576 ==> shows_size(crate::format::bytes_text(value), value, 1024, "KiB"@),
        1_048_576 <= value < 1_073_741_824 ==> shows_size(
            crate::format::bytes_text(value),
            value,
            1_048_576,
            "MiB"@,
        ),
        1_073_741_824 <= value < 1_099_511_627_776 ==> shows_size(
            crate::format::bytes_text(value),
            value,
            1_073_741_824,
            "GiB"@,
        ),
        1_099_511_627_776 <= value ==> shows_size(
            crate::format::bytes_text(value),
            value,
            1_099_511_627_776,
            "TiB"@,
        ),
{
    crate::format::sizes_are_never_overstated(value);
    let whole = crate::format::whole_units(value);
    let tenths = crate::format::unit_tenths(value);
    if value >= 1024 {
        let (scale, label) = crate::format::unit_of(value);
        assert(crate::format::bytes_text(value) == number::decimal(whole) + "."@ + number::decimal(tenths)
            + " "@ + label);
        assert(shows_size(crate::format::bytes_text(value), value, scale, label));
    }
}

/// A share of something is the part of a hundred that it is, cut to a whole
/// number, and nothing where there is nothing to share.
pub proof fn shares_are_parts_of_a_hundred(part: u64, total: u64)
    ensures
        total == 0 ==> crate::format::percentage(part, total) == 0,
        total > 0 && part <= total ==> {
            &&& crate::format::percentage(part, total) * total <= part * 100
            &&& part * 100 < (crate::format::percentage(part, total) + 1) * total
            &&& crate::format::percentage(part, total) <= 100
        },
        total > 0 && part == total ==> crate::format::percentage(part, total) == 100,
{
    if total > 0 {
        let q = part * 100 / total as int;
        let t = total as int;
        let n = part * 100;
        assert(q * t <= n && n < (q + 1) * t && q >= 0) by (nonlinear_arith)
            requires
                q == n / t,
                t > 0,
                n >= 0,
        ;
        if part <= total {
            assert(q <= 100) by (nonlinear_arith)
                requires
                    q * t <= n,
                    n <= 100 * t,
                    t > 0,
            ;
        }
        if part == total {
            assert(q >= 100) by (nonlinear_arith)
                requires
                    n < (q + 1) * t,
                    n == 100 * t,
                    t > 0,
            ;
        }
    }
}

/// Ages are counted in whole days, from a year on in years and tenths of years,
/// all of them cut; what lies ahead or is unknown has none.
pub proof fn ages_are_counted_from_the_past(now: i64, then: i64)
    ensures
        crate::format::age_text(now, None) == "-"@,
        then > now ==> crate::format::age_text(now, Some(then)) == "?"@,
        0 <= now - then < 86_400 ==> crate::format::age_text(now, Some(then)) == "today"@,
        86_400 <= now - then < 31_536_000 ==> exists|days: nat|
            crate::format::age_text(now, Some(then)) == #[trigger] number::decimal(days) + "d"@ && days
                * 86_400 <= now - then < (days + 1) * 86_400,
        31_536_000 <= now - then ==> exists|years: nat, tenths: nat|
            #![trigger number::decimal(years), number::decimal(tenths)]
            {
                &&& crate::format::age_text(now, Some(then)) == number::decimal(years) + "."@
                    + number::decimal(tenths) + "y"@
                &&& tenths < 10
                &&& (years * 10 + tenths) * 365 <= (now - then) / 86_400 * 10 < (years * 10 + tenths
                    + 1) * 365
            },
{
    let elapsed = now - then;
    if elapsed >= 0 {
        let days = (elapsed / 86_400) as nat;
        assert(days * 86_400 <= elapsed < (days + 1) * 86_400);
        if 86_400 <= elapsed < 31_536_000 {
            assert(crate::format::age_text(now, Some(then)) == number::decimal(days) + "d"@);
        }
        if 31_536_000 <= elapsed {
            let years = days / 365;
            let tenths = (days % 365) * 10 / 365;
            assert((years * 10 + tenths) * 365 <= days * 10 < (years * 10 + tenths + 1) * 365);
            assert(crate::format::age_text(now, Some(then)) == number::decimal(years) + "."@
                + number::decimal(tenths) + "y"@);
        }
    }
}

/// The days since a timestamp are counted whole, and none since one to come.
pub proof fn days_are_counted_whole(now: i64, then: i64)
    ensures
        then <= now ==> crate::format::elapsed_days(now, then) * 86_400 <= now - then < (
        crate::format::elapsed_days(now, then) + 1) * 86_400,
        then > now ==> crate::format::elapsed_days(now, then) == 0,
{
}

/// How many days a month of the Gregorian calendar has.
pub open spec fn month_length(year: int, month: int) -> int {
    if month == 2 {
        if year % 400 == 0 {
            29
        } else if year % 100 == 0 {
            28
        } else if year % 4 == 0 {
            29
        } else {
            28
        }
    } else if month == 4 || month == 6 || month == 9 || month == 11 {
        30
    } else {
        31
    }
}

/// The day behind a day in the Gregorian calendar.
pub open spec fn day_after(d: (int, int, int)) -> (int, int, int) {
    if d.2 < month_length(d.0, d.1) {
        (d.0, d.1, d.2 + 1)
    } else if d.1 < 12 {
        (d.0, d.1 + 1, 1)
    } else {
        (d.0 + 1, 1, 1)
    }
}

/// Dates go on day by day through the Gregorian calendar, from the first of
/// January 1970.
pub proof fn dates_go_on_day_by_day(days: int)
    ensures
        crate::format::date_of(0) == (1970int, 1int, 1int),
        crate::format::date_of(days + 1) == day_after(crate::format::date_of(days)),
{
    let start = (1970int, 1int, 1int);
    crate::format::days_have_dates(0);
    assert(crate::format::is_date(start.0, start.1, start.2));
    assert(crate::format::day_number(start.0, start.1, start.2) == 0);
    crate::format::dates_are_unique(crate::format::date_of(0), start);
    crate::format::days_have_dates(days);
    crate::format::days_have_dates(days + 1);
    let d = crate::format::date_of(days);
    let e = day_after(d);
    assert(crate::format::days_in_month(d.0, d.1) == month_length(d.0, d.1)) by {
        assert(d.0 % 400 == 0 ==> d.0 % 100 == 0);
        assert(d.0 % 100 == 0 ==> d.0 % 4 == 0);
    }
    crate::format::lemma_leap_step(d.0);
    assert(crate::format::is_date(e.0, e.1, e.2));
    assert(crate::format::day_number(e.0, e.1, e.2) == days + 1);
    crate::format::dates_are_unique(crate::format::date_of(days + 1), e);
}

/// A date is written as year, month and day, in four, two and two digits with
/// hyphens between them, and it is that of the day that the moment falls in.
pub proof fn dates_are_written_out(t: i64, day: int)
    requires
        day * 86_400 <= t < (day + 1) * 86_400,
        0 <= crate::format::date_of(day).0 <= 9999,
    ensures
        crate::format::date_text(None) == "-"@,
        ({
            let s = crate::format::date_text(Some(t));
            let d = crate::format::date_of(day);
            &&& s.len() == 10
            &&& s[4] == '-' && s[7] == '-'
            &&& worth(s.subrange(0, 4)) == d.0
            &&& worth(s.subrange(5, 7)) == d.1
            &&& worth(s.subrange(8, 10)) == d.2
        }),
{
    reveal_strlit("-");
    let d = crate::format::date_of(day);
    assert(t as int / 86_400 == day);
    crate::format::days_have_dates(day);
    crate::format::lemma_decimal_len(d.0 as nat);
    crate::format::lemma_decimal_len(d.1 as nat);
    crate::format::lemma_decimal_len(d.2 as nat);
    crate::format::lemma_zero_padded(d.0, 4);
    crate::format::lemma_zero_padded(d.1, 2);
    crate::format::lemma_zero_padded(d.2, 2);
    let s = crate::format::date_text(Some(t));
    assert(s.subrange(0, 4) =~= number::zero_padded(d.0, 4));
    assert(s.subrange(5, 7) =~= number::zero_padded(d.1, 2));
    assert(s.subrange(8, 10) =~= number::zero_padded(d.2, 2));
    lemma_worth(s.subrange(0, 4));
    lemma_worth(s.subrange(5, 7));
    lemma_worth(s.subrange(8, 10));
}

/// A text that is too wide is cut to the width, keeps its beginning and says
/// with its last character that something is missing.
pub proof fn cut_texts_say_so(s: Seq<char>, width: nat)
    ensures
        s.len() <= width ==> crate::format::truncated(s, width) == s,
        s.len() > width > 0 ==> {
            &&& crate::format::truncated(s, width).len() == width
            &&& crate::format::truncated(s, width).last() == '…'
            &&& forall|i: int| 0 <= i < width - 1 ==> #[trigger] crate::format::truncated(s, width)[i] == s[i]
        },
        width == 0 ==> crate::format::truncated(s, width).len() == 0,
{
    reveal_strlit("…");
}

/// Filling up puts the filling in front or behind, up to the width and no
/// further.
pub proof fn filling_goes_up_to_the_width(s: Seq<char>, width: nat, fill: char, i: int)
    ensures
        number::pad_start(s, width, fill).len() == number::pad_end(s, width, fill).len(),
        number::pad_end(s, width, fill).len() == (if s.len() < width {
            width
        } else {
            s.len()
        }),
        0 <= i < s.len() ==> number::pad_end(s, width, fill)[i] == s[i],
        s.len() <= i < width ==> number::pad_end(s, width, fill)[i] == fill,
        s.len() < width && 0 <= i < width - s.len() ==> number::pad_start(s, width, fill)[i] == fill,
        s.len() < width && width - s.len() <= i < width ==> number::pad_start(s, width, fill)[i] == s[i
            - (width - s.len())],
        s.len() >= width ==> number::pad_start(s, width, fill) == s,
{
}

} // verus!
