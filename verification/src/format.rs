//! Human-readable rendering of sizes and timestamps.
//!
//! Deliberately integer-only: byte sizes are scaled with integer arithmetic
//! rather than converted to floating point, so every figure is exactly
//! reproducible.
use vstd::prelude::*;

use crate::number;
use crate::number::{number, padded_end, zeros};
use crate::text;
use crate::text::{chars_of, string_of};

verus! {

// ---------------------------------------------------------------------------
// Sizes
// ---------------------------------------------------------------------------

/// The largest binary unit that fits into `value`, and its label.
pub open spec fn unit_of(value: u64) -> (nat, Seq<char>) {
    if value >= 0x100_0000_0000 {
        (0x100_0000_0000, "TiB"@)
    } else if value >= 0x4000_0000 {
        (0x4000_0000, "GiB"@)
    } else if value >= 0x10_0000 {
        (0x10_0000, "MiB"@)
    } else if value >= 0x400 {
        (0x400, "KiB"@)
    } else {
        (1, "B"@)
    }
}

/// The whole units in `value`.
pub open spec fn whole_units(value: u64) -> nat {
    value as nat / unit_of(value).0
}

/// The tenths of a unit beyond the whole ones, cut off rather than rounded.
pub open spec fn unit_tenths(value: u64) -> nat {
    (value as nat % unit_of(value).0) * 10 / unit_of(value).0
}

/// A byte count as text.
pub open spec fn bytes_text(value: u64) -> Seq<char> {
    let (scale, label) = unit_of(value);
    if scale == 1 {
        number::decimal(value as nat) + " "@ + label
    } else {
        number::decimal(whole_units(value)) + "."@ + number::decimal(unit_tenths(value)) + " "@
            + label
    }
}

/// Render a byte count as e.g. `1.5 GiB`.
///
/// Values below a kibibyte are rendered without a fractional part. Everything
/// else gets one decimal place, truncated rather than rounded so that a
/// reported figure is never larger than the real one.
pub fn bytes(value: u64) -> (r: String)
    ensures
        r@ == bytes_text(value),
{
    let (scale, label): (u64, &str) = if value >= 0x100_0000_0000 {
        (0x100_0000_0000, "TiB")
    } else if value >= 0x4000_0000 {
        (0x4000_0000, "GiB")
    } else if value >= 0x10_0000 {
        (0x10_0000, "MiB")
    } else if value >= 0x400 {
        (0x400, "KiB")
    } else {
        (1, "B")
    };
    if scale == 1 {
        let mut out = number(value);
        out.append(" ");
        out.append(label);
        return out;
    }
    let whole: u64 = value / scale;
    let remainder: u64 = value % scale;
    let tenths: u64 = remainder * 10 / scale;
    let mut out = number(whole);
    out.append(".");
    out.append(number(tenths).as_str());
    out.append(" ");
    out.append(label);
    out
}

/// A rendered size never claims more than there is: the whole units and the
/// tenths that it shows come to no more than the value, and to more than the
/// value less a tenth of a unit.
pub proof fn sizes_are_never_overstated(value: u64)
    ensures
        (whole_units(value) * 10 + unit_tenths(value)) * unit_of(value).0 <= value * 10,
        value * 10 < (whole_units(value) * 10 + unit_tenths(value) + 1) * unit_of(value).0,
        unit_tenths(value) < 10,
{
    let scale = unit_of(value).0;
    let v = value as nat;
    let w = v / scale;
    let r = v % scale;
    let t = r * 10 / scale;
    assert(v == w * scale + r && r < scale) by (nonlinear_arith)
        requires
            scale > 0,
            w == v / scale,
            r == v % scale,
    ;
    assert(t * scale <= r * 10 && r * 10 < (t + 1) * scale) by (nonlinear_arith)
        requires
            scale > 0,
            t == r * 10 / scale,
    ;
    assert(t < 10) by (nonlinear_arith)
        requires
            t * scale <= r * 10,
            r < scale,
            scale > 0,
    ;
    assert((w * 10 + t) * scale <= v * 10 && v * 10 < (w * 10 + t + 1) * scale)
        by (nonlinear_arith)
        requires
            v == w * scale + r,
            t * scale <= r * 10,
            r * 10 < (t + 1) * scale,
    ;
}

/// A rendered size starts with a digit and has a space before its unit.
pub proof fn sizes_are_well_formed(value: u64)
    ensures
        bytes_text(value).len() > 0,
        number::is_digit(bytes_text(value)[0]),
        bytes_text(value).contains(' '),
{
    let (scale, label) = unit_of(value);
    reveal_strlit(" ");
    reveal_strlit(".");
    if scale == 1 {
        number::decimal_denotes(value as nat);
        let head = number::decimal(value as nat);
        assert(bytes_text(value)[0] == head[0]);
        assert(bytes_text(value)[head.len() as int] == ' ');
    } else {
        number::decimal_denotes(whole_units(value));
        let head = number::decimal(whole_units(value));
        let tail = number::decimal(unit_tenths(value));
        assert(bytes_text(value)[0] == head[0]);
        assert(bytes_text(value)[(head.len() + 1 + tail.len()) as int] == ' ');
    }
}

/// Render a byte count right-padded to a fixed width for table columns.
pub fn bytes_padded(value: u64, width: usize) -> (r: String)
    ensures
        r@ == number::pad_end(bytes_text(value), width as nat, ' '),
{
    padded_end(bytes(value).as_str(), width, ' ')
}

/// What percentage of `total` a part is, cut off rather than rounded. A
/// percentage too large for a number is the largest one.
pub open spec fn percentage(part: u64, total: u64) -> u64 {
    if total == 0 {
        0
    } else {
        number::saturated((part * 100 / total as int) as nat)
    }
}

/// Render a percentage of `total` as an integer, guarding against a zero total.
pub fn percent(part: u64, total: u64) -> (r: u64)
    ensures
        r == percentage(part, total),
{
    if total == 0 {
        return 0;
    }
    let share: u128 = part as u128 * 100 / total as u128;
    if share > u64::MAX as u128 {
        u64::MAX
    } else {
        share as u64
    }
}

// ---------------------------------------------------------------------------
// Ages
// ---------------------------------------------------------------------------

/// Seconds in a day.
pub const DAY: i64 = 86_400;

/// The age of a timestamp as text: nothing known, in the future, today, days,
/// or years with one decimal place cut off.
pub open spec fn age_text(now: i64, timestamp: Option<i64>) -> Seq<char> {
    match timestamp {
        None => "-"@,
        Some(then) => {
            let elapsed = now - then;
            let days = (elapsed / 86_400) as nat;
            if elapsed < 0 {
                "?"@
            } else if days < 1 {
                "today"@
            } else if days < 365 {
                number::decimal(days) + "d"@
            } else {
                number::decimal(days / 365) + "."@ + number::decimal((days % 365) * 10 / 365)
                    + "y"@
            }
        },
    }
}

/// Render the age of `timestamp` relative to `now` as e.g. `41d` or `2.1y`.
///
/// Returns `-` for a missing timestamp and `?` for one in the future, which
/// happens on systems whose clock has moved backwards.
pub fn age(now: i64, timestamp: Option<i64>) -> (r: String)
    ensures
        r@ == age_text(now, timestamp),
{
    let then: i64 = match timestamp {
        Some(then) => then,
        None => {
            return "-".to_owned();
        },
    };
    if now < then {
        return "?".to_owned();
    }
    let elapsed: u64 = (now as i128 - then as i128) as u64;
    let days: u64 = elapsed / 86_400;
    if days < 1 {
        return "today".to_owned();
    }
    if days < 365 {
        let mut out = number(days);
        out.append("d");
        return out;
    }
    let mut out = number(days / 365);
    out.append(".");
    out.append(number((days % 365) * 10 / 365).as_str());
    out.append("y");
    out
}

/// Whole days between a timestamp and now, zero where it lies in the future.
pub open spec fn elapsed_days(now: i64, timestamp: i64) -> int {
    let elapsed = now - timestamp;
    if elapsed < 0 {
        0
    } else {
        elapsed / 86_400
    }
}

/// Whole days between `timestamp` and `now`, saturating at zero.
pub fn days_since(now: i64, timestamp: i64) -> (r: i64)
    ensures
        r == elapsed_days(now, timestamp),
{
    if now < timestamp {
        return 0;
    }
    let elapsed: u64 = (now as i128 - timestamp as i128) as u64;
    (elapsed / 86_400) as i64
}

// ---------------------------------------------------------------------------
// Dates
// ---------------------------------------------------------------------------

/// Whether a year of the proleptic Gregorian calendar has a 29th of February.
pub open spec fn is_leap(year: int) -> bool {
    year % 4 == 0 && (year % 100 != 0 || year % 400 == 0)
}

/// The leap years up to and including `year`, counted from the year 0.
pub open spec fn leaps_through(year: int) -> int {
    year / 4 - year / 100 + year / 400
}

/// The days of a year before the month, in a year that is no leap year.
pub open spec fn days_before_month(month: int) -> int {
    if month == 1 {
        0
    } else if month == 2 {
        31
    } else if month == 3 {
        59
    } else if month == 4 {
        90
    } else if month == 5 {
        120
    } else if month == 6 {
        151
    } else if month == 7 {
        181
    } else if month == 8 {
        212
    } else if month == 9 {
        243
    } else if month == 10 {
        273
    } else if month == 11 {
        304
    } else {
        334
    }
}

/// The days of a month.
pub open spec fn days_in_month(year: int, month: int) -> int {
    if month == 2 {
        if is_leap(year) {
            29
        } else {
            28
        }
    } else if month == 4 || month == 6 || month == 9 || month == 11 {
        30
    } else {
        31
    }
}

/// Whether there is such a date.
pub open spec fn is_date(year: int, month: int, day: int) -> bool {
    1 <= month <= 12 && 1 <= day <= days_in_month(year, month)
}

/// The day of the year, counted from zero.
pub open spec fn day_of_year(year: int, month: int, day: int) -> int {
    days_before_month(month) + (if month > 2 && is_leap(year) {
        1int
    } else {
        0int
    }) + day - 1
}

/// The day of a date, counted from the first of January 1970: a day for each
/// day of the years between, one more for each leap year among them, and the
/// day of the year.
pub open spec fn day_number(year: int, month: int, day: int) -> int {
    365 * (year - 1970) + (leaps_through(year - 1) - leaps_through(1969)) + day_of_year(
        year,
        month,
        day,
    )
}

/// The year within an era of 400 years, counted from March, and the day of
/// that year.
proof fn lemma_year_of_era(doe: int, yoe: int, doy: int)
    requires
        0 <= doe < 146_097,
        yoe == (doe - doe / 1_460 + doe / 36_524 - doe / 146_096) / 365,
        doy == doe - (365 * yoe + yoe / 4 - yoe / 100),
    ensures
        0 <= yoe <= 399,
        0 <= doy <= 365,
        doy == 365 ==> is_leap(yoe + 1),
{
    let century = doe / 36_524;
    if century == 0 {
        assert(doe < 36_524);
    } else if century == 1 {
        assert(36_524 <= doe < 73_048);
    } else if century == 2 {
        assert(73_048 <= doe < 109_572);
    } else if century == 3 {
        assert(109_572 <= doe < 146_096);
    } else {
        assert(doe == 146_096);
    }
}

/// The month and the day within a year counted from March.
proof fn lemma_month_of_year(doy: int, mp: int, day: int)
    requires
        0 <= doy <= 365,
        mp == (5 * doy + 2) / 153,
        day == doy - (153 * mp + 2) / 5 + 1,
    ensures
        0 <= mp <= 11,
        mp <= 9 ==> days_before_month(mp + 3) - 59 + day - 1 == doy,
        mp <= 9 ==> 1 <= day <= days_in_month(1, mp + 3),
        mp == 10 ==> 306 + day - 1 == doy && 1 <= day <= 31,
        mp == 11 ==> 337 + day - 1 == doy && 1 <= day <= 29 && (day == 29 ==> doy == 365),
{
    if mp == 0 {
        assert((153 * mp + 2) / 5 == 0);
    } else if mp == 1 {
        assert((153 * mp + 2) / 5 == 31);
    } else if mp == 2 {
        assert((153 * mp + 2) / 5 == 61);
    } else if mp == 3 {
        assert((153 * mp + 2) / 5 == 92);
    } else if mp == 4 {
        assert((153 * mp + 2) / 5 == 122);
    } else if mp == 5 {
        assert((153 * mp + 2) / 5 == 153);
    } else if mp == 6 {
        assert((153 * mp + 2) / 5 == 184);
    } else if mp == 7 {
        assert((153 * mp + 2) / 5 == 214);
    } else if mp == 8 {
        assert((153 * mp + 2) / 5 == 245);
    } else if mp == 9 {
        assert((153 * mp + 2) / 5 == 275);
    } else if mp == 10 {
        assert((153 * mp + 2) / 5 == 306);
    } else {
        assert(mp == 11);
        assert((153 * mp + 2) / 5 == 337);
    }
}

/// The leap years up to a year, from the era and the year within it.
proof fn lemma_leaps(yoe: int, era: int)
    requires
        0 <= yoe <= 399,
    ensures
        leaps_through(yoe + era * 400) == yoe / 4 - yoe / 100 + 97 * era,
        is_leap(yoe + era * 400) == is_leap(yoe),
{
    let year = yoe + era * 400;
    assert(year / 4 == yoe / 4 + 100 * era);
    assert(year / 100 == yoe / 100 + 4 * era);
    assert(year / 400 == era);
}

/// A step by one is a step to the next quotient where nothing remains.
proof fn lemma_quotient_step(year: int)
    ensures
        year / 4 - (year - 1) / 4 == (if year % 4 == 0 {
            1int
        } else {
            0int
        }),
        year / 100 - (year - 1) / 100 == (if year % 100 == 0 {
            1int
        } else {
            0int
        }),
        year / 400 - (year - 1) / 400 == (if year % 400 == 0 {
            1int
        } else {
            0int
        }),
        year % 400 == 0 ==> year % 100 == 0,
        year % 100 == 0 ==> year % 4 == 0,
{
    assert(year / 4 - (year - 1) / 4 == (if year % 4 == 0 {
        1int
    } else {
        0int
    })) by (nonlinear_arith);
    assert(year / 100 - (year - 1) / 100 == (if year % 100 == 0 {
        1int
    } else {
        0int
    })) by (nonlinear_arith);
    assert(year / 400 - (year - 1) / 400 == (if year % 400 == 0 {
        1int
    } else {
        0int
    })) by (nonlinear_arith);
    assert(year % 400 == 0 ==> year % 100 == 0) by (nonlinear_arith);
    assert(year % 100 == 0 ==> year % 4 == 0) by (nonlinear_arith);
}

/// One year more has one leap year more, or none.
pub proof fn lemma_leap_step(year: int)
    ensures
        leaps_through(year) - leaps_through(year - 1) == (if is_leap(year) {
            1int
        } else {
            0int
        }),
{
    lemma_quotient_step(year);
}

/// The parts of a date make up the day that they were taken from.
proof fn lemma_date_of_parts(days: int, era: int, yoe: int, doy: int, mp: int, day: int)
    requires
        days + 719_468 == era * 146_097 + 365 * yoe + yoe / 4 - yoe / 100 + doy,
        0 <= yoe <= 399,
        0 <= doy <= 365,
        doy == 365 ==> is_leap(yoe + 1),
        mp == (5 * doy + 2) / 153,
        day == doy - (153 * mp + 2) / 5 + 1,
    ensures
        0 <= mp <= 11,
        mp <= 9 ==> is_date(yoe + era * 400, mp + 3, day) && day_number(
            yoe + era * 400,
            mp + 3,
            day,
        ) == days,
        mp >= 10 ==> is_date(yoe + era * 400 + 1, mp - 9, day) && day_number(
            yoe + era * 400 + 1,
            mp - 9,
            day,
        ) == days,
{
    let year = yoe + era * 400;
    lemma_month_of_year(doy, mp, day);
    lemma_leaps(yoe, era);
    lemma_leap_step(year);
    assert(leaps_through(1969) == 477);
    if mp <= 9 {
        let month = mp + 3;
        assert(days_in_month(year, month) == days_in_month(1, month));
        assert(day_number(year, month, day) == 365 * (year - 1970) + leaps_through(year - 1) - 477
            + days_before_month(month) + (leaps_through(year) - leaps_through(year - 1)) + day - 1);
    } else {
        assert(day_number(year + 1, mp - 9, day) == 365 * (year + 1 - 1970) + leaps_through(year)
            - 477 + days_before_month(mp - 9) + day - 1);
        if day == 29 && mp == 11 {
            lemma_leap_shift(yoe, era);
        }
    }
}

/// Eras do not change which years are leap years.
proof fn lemma_leap_shift(yoe: int, era: int)
    requires
        0 <= yoe <= 399,
    ensures
        is_leap(yoe + era * 400 + 1) == is_leap(yoe + 1),
{
    if yoe < 399 {
        lemma_leaps(yoe + 1, era);
    } else {
        lemma_leaps(0, era + 1);
    }
}

/// Convert days since the Unix epoch into a proleptic Gregorian date.
///
/// Howard Hinnant's algorithm: count from the first of March of the year 0, so
/// that the leap day is the last day of a year, and split off eras of 400
/// years, which all have the same number of days.
pub fn civil_from_days(days: i64) -> (r: (i64, i64, i64))
    requires
        days <= i64::MAX - 719_468,
    ensures
        is_date(r.0 as int, r.1 as int, r.2 as int),
        day_number(r.0 as int, r.1 as int, r.2 as int) == days,
        r.0 > i64::MIN,
{
    let shifted: i64 = days + 719_468;
    let era: i64 = shifted.checked_div_euclid(146_097).unwrap();
    let day_of_era: i64 = shifted.checked_rem_euclid(146_097).unwrap();
    let year_of_era: i64 = (day_of_era - day_of_era / 1_460 + day_of_era / 36_524 - day_of_era
        / 146_096) / 365;
    proof {
        lemma_year_of_era(
            day_of_era as int,
            year_of_era as int,
            day_of_era - (365 * year_of_era + year_of_era / 4 - year_of_era / 100),
        );
    }
    let day_of_year: i64 = day_of_era - (365 * year_of_era + year_of_era / 4 - year_of_era / 100);
    let shifted_month: i64 = (5 * day_of_year + 2) / 153;
    let day: i64 = day_of_year - (153 * shifted_month + 2) / 5 + 1;
    proof {
        lemma_date_of_parts(
            days as int,
            era as int,
            year_of_era as int,
            day_of_year as int,
            shifted_month as int,
            day as int,
        );
    }
    let year: i64 = year_of_era + era * 400;
    if shifted_month < 10 {
        (year, shifted_month + 3, day)
    } else {
        (year + 1, shifted_month - 9, day)
    }
}

/// The date of a day: the only one with that number.
pub open spec fn date_of(days: int) -> (int, int, int) {
    choose|d: (int, int, int)| #[trigger] is_date(d.0, d.1, d.2) && day_number(d.0, d.1, d.2) == days
}

/// An earlier date has a smaller number.
pub proof fn dates_are_ordered(a: (int, int, int), b: (int, int, int))
    requires
        is_date(a.0, a.1, a.2),
        is_date(b.0, b.1, b.2),
        a.0 < b.0 || (a.0 == b.0 && (a.1 < b.1 || (a.1 == b.1 && a.2 < b.2))),
    ensures
        day_number(a.0, a.1, a.2) < day_number(b.0, b.1, b.2),
{
    if a.0 < b.0 {
        lemma_new_year(a.0, b.0);
        lemma_leap_step(a.0);
        assert(day_of_year(a.0, a.1, a.2) < 365 + (if is_leap(a.0) {
            1int
        } else {
            0int
        }));
        assert(day_of_year(b.0, b.1, b.2) >= 0);
    }
}

/// A year is over before a later one begins.
proof fn lemma_new_year(a: int, b: int)
    requires
        a < b,
    ensures
        365 * a + leaps_through(a) + 365 <= 365 * b + leaps_through(b - 1),
    decreases b - a,
{
    if a + 1 < b {
        lemma_new_year(a, b - 1);
        lemma_leap_step(b - 1);
    }
}

/// There is one date for each day.
pub proof fn dates_are_unique(a: (int, int, int), b: (int, int, int))
    requires
        is_date(a.0, a.1, a.2),
        is_date(b.0, b.1, b.2),
        day_number(a.0, a.1, a.2) == day_number(b.0, b.1, b.2),
    ensures
        a == b,
{
    if a.0 < b.0 || (a.0 == b.0 && (a.1 < b.1 || (a.1 == b.1 && a.2 < b.2))) {
        dates_are_ordered(a, b);
    } else if a != b {
        dates_are_ordered(b, a);
    }
}

/// A date as text: year, month and day, with hyphens between them.
pub open spec fn date_parts_text(d: (int, int, int)) -> Seq<char> {
    number::zero_padded(d.0, 4) + "-"@ + number::zero_padded(d.1, 2) + "-"@ + number::zero_padded(
        d.2,
        2,
    )
}

/// The UTC date of a timestamp as text, or a hyphen where there is none.
pub open spec fn date_text(timestamp: Option<i64>) -> Seq<char> {
    match timestamp {
        None => "-"@,
        Some(t) => date_parts_text(date_of(t as int / 86_400)),
    }
}

/// Render a Unix timestamp as an ISO-8601 calendar date in UTC.
///
/// Only the date is shown; the time of day is noise at the granularity this
/// tool reports on.
pub fn date(timestamp: Option<i64>) -> (r: String)
    ensures
        r@ == date_text(timestamp),
{
    let t: i64 = match timestamp {
        Some(t) => t,
        None => {
            return "-".to_owned();
        },
    };
    let days: i64 = t.checked_div_euclid(86_400).unwrap();
    let (year, month, day) = civil_from_days(days);
    proof {
        let d = (year as int, month as int, day as int);
        assert(is_date(d.0, d.1, d.2) && day_number(d.0, d.1, d.2) == days);
        dates_are_unique(d, date_of(t as int / 86_400));
    }
    let mut out = zeros(year, 4);
    out.append("-");
    out.append(zeros(month, 2).as_str());
    out.append("-");
    out.append(zeros(day, 2).as_str());
    out
}

/// Every day has a date.
pub proof fn days_have_dates(days: int)
    ensures
        is_date(date_of(days).0, date_of(days).1, date_of(days).2),
        day_number(date_of(days).0, date_of(days).1, date_of(days).2) == days,
{
    let z = days + 719_468;
    let era = z / 146_097;
    let doe = z % 146_097;
    let yoe = (doe - doe / 1_460 + doe / 36_524 - doe / 146_096) / 365;
    let doy = doe - (365 * yoe + yoe / 4 - yoe / 100);
    lemma_year_of_era(doe, yoe, doy);
    let mp = (5 * doy + 2) / 153;
    let day = doy - (153 * mp + 2) / 5 + 1;
    lemma_date_of_parts(days, era, yoe, doy, mp, day);
    let d = if mp <= 9 {
        (yoe + era * 400, mp + 3, day)
    } else {
        (yoe + era * 400 + 1, mp - 9, day)
    };
    assert(is_date(d.0, d.1, d.2) && day_number(d.0, d.1, d.2) == days);
}

/// Whether `a` comes before `b` at the first place where they differ.
spec fn precedes(a: Seq<char>, b: Seq<char>) -> bool {
    exists|i: int| precedes_at(a, b, i)
}

/// Whether `i` is the first place where two texts differ, and `a` has the
/// smaller character there. Before it they hold ASCII characters alone.
spec fn precedes_at(a: Seq<char>, b: Seq<char>, i: int) -> bool {
    &&& 0 <= i < a.len()
    &&& i < b.len()
    &&& a.take(i) == b.take(i)
    &&& a[i] < b[i]
}

/// Digits of equal number denote the same number only if they are the same.
proof fn lemma_digits_injective(a: Seq<char>, b: Seq<char>)
    requires
        a.len() == b.len(),
        forall|i: int| 0 <= i < a.len() ==> number::is_digit(#[trigger] a[i]),
        forall|i: int| 0 <= i < b.len() ==> number::is_digit(#[trigger] b[i]),
        number::digits_value(a) == number::digits_value(b),
    ensures
        a == b,
    decreases a.len(),
{
    if a.len() > 0 {
        assert(number::is_digit(a[a.len() - 1]) && number::is_digit(b[b.len() - 1]));
        assert(number::digit_value(a.last()) == number::digit_value(b.last()));
        assert(a.last() == b.last());
        lemma_digits_injective(a.drop_last(), b.drop_last());
        assert(a =~= a.drop_last().push(a.last()));
        assert(b =~= b.drop_last().push(b.last()));
    } else {
        assert(a =~= b);
    }
}

/// Of digits of equal number, those of the smaller number come first.
proof fn lemma_digits_precede(a: Seq<char>, b: Seq<char>)
    requires
        a.len() == b.len(),
        forall|i: int| 0 <= i < a.len() ==> number::is_digit(#[trigger] a[i]),
        forall|i: int| 0 <= i < b.len() ==> number::is_digit(#[trigger] b[i]),
        number::digits_value(a) < number::digits_value(b),
    ensures
        precedes(a, b),
    decreases a.len(),
{
    if a.len() > 0 {
        let x = a.drop_last();
        let y = b.drop_last();
        assert(number::is_digit(a[a.len() - 1]) && number::is_digit(b[b.len() - 1]));
        if number::digits_value(x) < number::digits_value(y) {
            lemma_digits_precede(x, y);
            let i = choose|i: int| precedes_at(x, y, i);
            assert(a.take(i) =~= x.take(i));
            assert(b.take(i) =~= y.take(i));
            assert(precedes_at(a, b, i));
        } else {
            lemma_digits_injective(x, y);
            assert(a.take(a.len() - 1) =~= x);
            assert(b.take(b.len() - 1) =~= y);
            assert(precedes_at(a, b, a.len() - 1));
        }
    }
}

/// What comes first keeps doing so with anything behind it.
proof fn lemma_precedes_extend(a: Seq<char>, b: Seq<char>, x: Seq<char>, y: Seq<char>)
    requires
        precedes(a, b),
    ensures
        precedes(a + x, b + y),
{
    let i = choose|i: int| precedes_at(a, b, i);
    assert((a + x).take(i) =~= a.take(i));
    assert((b + y).take(i) =~= b.take(i));
    assert(precedes_at(a + x, b + y, i));
}

/// What comes first keeps doing so with the same in front of it.
proof fn lemma_precedes_prefix(p: Seq<char>, a: Seq<char>, b: Seq<char>)
    requires
        precedes(a, b),
    ensures
        precedes(p + a, p + b),
{
    let i = choose|i: int| precedes_at(a, b, i);
    assert((p + a).take(p.len() + i) =~= p + a.take(i));
    assert((p + b).take(p.len() + i) =~= p + b.take(i));
    assert(precedes_at(p + a, p + b, p.len() + i));
}

/// Leading zeros do not change the number, and fill up to the width.
pub proof fn lemma_zero_padded(n: int, width: nat)
    requires
        n >= 0,
        number::decimal(n as nat).len() <= width,
    ensures
        number::zero_padded(n, width).len() == width,
        forall|i: int|
            0 <= i < width ==> number::is_digit(#[trigger] number::zero_padded(n, width)[i]),
        number::digits_value(number::zero_padded(n, width)) == n,
{
    let d = number::decimal(n as nat);
    number::decimal_denotes(n as nat);
    let k = (width - d.len()) as nat;
    let z = number::repeat('0', k);
    assert(number::zero_padded(n, width) =~= z + d);
    assert forall|i: int| 0 <= i < width implies number::is_digit(
        #[trigger] number::zero_padded(n, width)[i],
    ) by {
        if i < k {
            assert((z + d)[i] == '0');
        } else {
            assert((z + d)[i] == d[i - k]);
        }
    }
    lemma_zeros_add_nothing(k, d);
}

proof fn lemma_zeros_add_nothing(k: nat, d: Seq<char>)
    ensures
        number::digits_value(number::repeat('0', k) + d) == number::digits_value(d),
    decreases k + d.len(),
{
    let z = number::repeat('0', k);
    if d.len() > 0 {
        assert((z + d).drop_last() =~= z + d.drop_last());
        lemma_zeros_add_nothing(k, d.drop_last());
    } else if k > 0 {
        assert((z + d).drop_last() =~= number::repeat('0', (k - 1) as nat) + d);
        lemma_zeros_add_nothing((k - 1) as nat, d);
        assert((z + d).last() == '0');
    } else {
        assert(z + d =~= d);
    }
}

/// How many digits small numbers have.
pub proof fn lemma_decimal_len(n: nat)
    ensures
        n < 100 ==> number::decimal(n).len() <= 2,
        n < 10_000 ==> number::decimal(n).len() <= 4,
{
    reveal_with_fuel(number::decimal, 4);
}

/// What comes first is smaller.
proof fn lemma_precedes_is_less(a: Seq<char>, b: Seq<char>)
    requires
        precedes(a, b),
        vstd::utf8::is_ascii_chars(a),
        vstd::utf8::is_ascii_chars(b),
    ensures
        text::text_le(a, b),
{
    let i = choose|i: int| precedes_at(a, b, i);
    vstd::utf8::is_ascii_chars_encode_utf8(a);
    vstd::utf8::is_ascii_chars_encode_utf8(b);
    let x = vstd::utf8::encode_utf8(a);
    let y = vstd::utf8::encode_utf8(b);
    assert forall|k: int| 0 <= k < i implies x[k] == y[k] by {
        assert(a[k] == a.take(i)[k]);
        assert(b[k] == b.take(i)[k]);
    }
    assert(x[i] < y[i]);
    text::lemma_bytes_le_at(x, y, i);
}

/// ISO-8601 dates sort in chronological order, as long as their years have
/// four digits.
pub proof fn dates_sort_as_timestamps(earlier: i64, later: i64)
    requires
        earlier <= later,
        0 <= date_of(earlier as int / 86_400).0,
        date_of(later as int / 86_400).0 <= 9999,
    ensures
        text::text_le(date_text(Some(earlier)), date_text(Some(later))),
{
    let m = earlier as int / 86_400;
    let n = later as int / 86_400;
    days_have_dates(m);
    days_have_dates(n);
    let a = date_of(m);
    let b = date_of(n);
    if b.0 < a.0 || (b.0 == a.0 && (b.1 < a.1 || (b.1 == a.1 && b.2 < a.2))) {
        dates_are_ordered(b, a);
    }
    text::text_order_is_total();
    if a != b {
        reveal_strlit("-");
        lemma_decimal_len(a.0 as nat);
        lemma_decimal_len(b.0 as nat);
        lemma_decimal_len(a.1 as nat);
        lemma_decimal_len(b.1 as nat);
        lemma_decimal_len(a.2 as nat);
        lemma_decimal_len(b.2 as nat);
        lemma_zero_padded(a.0, 4);
        lemma_zero_padded(b.0, 4);
        lemma_zero_padded(a.1, 2);
        lemma_zero_padded(b.1, 2);
        lemma_zero_padded(a.2, 2);
        lemma_zero_padded(b.2, 2);
        let (ay, am, ad) = (
            number::zero_padded(a.0, 4),
            number::zero_padded(a.1, 2),
            number::zero_padded(a.2, 2),
        );
        let (by, bm, bd) = (
            number::zero_padded(b.0, 4),
            number::zero_padded(b.1, 2),
            number::zero_padded(b.2, 2),
        );
        let s = date_parts_text(a);
        let t = date_parts_text(b);
        lemma_date_is_ascii(a);
        lemma_date_is_ascii(b);
        if a.0 < b.0 {
            lemma_digits_precede(ay, by);
            lemma_precedes_extend(ay, by, "-"@ + am + "-"@ + ad, "-"@ + bm + "-"@ + bd);
            assert(s =~= ay + ("-"@ + am + "-"@ + ad));
            assert(t =~= by + ("-"@ + bm + "-"@ + bd));
        } else if a.1 < b.1 {
            lemma_digits_precede(am, bm);
            lemma_precedes_prefix(ay + "-"@, am, bm);
            lemma_precedes_extend(ay + "-"@ + am, by + "-"@ + bm, "-"@ + ad, "-"@ + bd);
            assert(s =~= (ay + "-"@ + am) + ("-"@ + ad));
            assert(t =~= (by + "-"@ + bm) + ("-"@ + bd));
        } else {
            lemma_digits_precede(ad, bd);
            lemma_precedes_prefix(ay + "-"@ + am + "-"@, ad, bd);
        }
        lemma_precedes_is_less(s, t);
    }
}

proof fn lemma_date_is_ascii(d: (int, int, int))
    requires
        is_date(d.0, d.1, d.2),
        0 <= d.0 <= 9999,
    ensures
        vstd::utf8::is_ascii_chars(date_parts_text(d)),
{
    reveal_strlit("-");
    lemma_decimal_len(d.0 as nat);
    lemma_decimal_len(d.1 as nat);
    lemma_decimal_len(d.2 as nat);
    lemma_zero_padded(d.0, 4);
    lemma_zero_padded(d.1, 2);
    lemma_zero_padded(d.2, 2);
    let s = date_parts_text(d);
    let y = number::zero_padded(d.0, 4);
    let m = number::zero_padded(d.1, 2);
    let n = number::zero_padded(d.2, 2);
    assert forall|i: int| 0 <= i < s.len() implies '\0' <= #[trigger] s[i] <= '\u{7f}' by {
        if i < 4 {
            assert(s[i] == y[i]);
        } else if i == 4 || i == 7 {
            assert(s[i] == '-');
        } else if 5 <= i < 7 {
            assert(s[i] == m[i - 5]);
        } else if i >= 8 {
            assert(s[i] == n[i - 8]);
        }
    }
}

// ---------------------------------------------------------------------------
// Truncation
// ---------------------------------------------------------------------------

/// `s` cut to `width` characters, the last of them an ellipsis where anything
/// was cut.
pub open spec fn truncated(s: Seq<char>, width: nat) -> Seq<char> {
    if s.len() <= width {
        s
    } else if width == 0 {
        Seq::empty()
    } else {
        s.take(width - 1) + "…"@
    }
}

/// Truncate `text` to `width` display columns, marking the cut with an ellipsis.
///
/// Counts `char`s rather than grapheme clusters. Package names and paths are
/// ASCII in practice.
pub fn truncate(text: &str, width: usize) -> (r: String)
    ensures
        r@ == truncated(text@, width as nat),
{
    let v = chars_of(text);
    if v.len() <= width {
        return text.to_owned();
    }
    if width == 0 {
        return String::new();
    }
    let mut kept = string_of(&v, 0, width - 1);
    kept.append("…");
    assert(text@.take(width - 1) =~= text@.subrange(0, width - 1));
    kept
}

/// Truncation never exceeds the requested width, and leaves alone what fits.
pub proof fn truncation_respects_its_width(s: Seq<char>, width: nat)
    ensures
        truncated(s, width).len() <= width,
        s.len() <= width ==> truncated(s, width) == s,
{
    reveal_strlit("…");
}

} // verus!
