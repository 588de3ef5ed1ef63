//! How figures and dates are written.
use pacpurge::format::{age, bytes, bytes_padded, civil_from_days, date, days_since, percent, truncate};

#[test]
fn bytes_uses_binary_units() {
    assert_eq!(bytes(0), "0 B");
    assert_eq!(bytes(999), "999 B");
    assert_eq!(bytes(1024), "1.0 KiB");
    assert_eq!(bytes(1536), "1.5 KiB");
    assert_eq!(bytes(1024 * 1024), "1.0 MiB");
    assert_eq!(bytes(3 * 1024 * 1024 * 1024 / 2), "1.5 GiB");
}

#[test]
fn bytes_truncates_rather_than_rounds() {
    // 1.99 KiB must never be reported as 2.0 KiB: a reclaim figure that
    // rounds up promises space that is not there.
    assert_eq!(bytes(2038), "1.9 KiB");
}

#[test]
fn age_reports_days_then_years() {
    let now = 1_700_000_000;
    assert_eq!(age(now, None), "-");
    assert_eq!(age(now, Some(now)), "today");
    assert_eq!(age(now, Some(now - 86_400 * 41)), "41d");
    assert_eq!(age(now, Some(now - 86_400 * 400)), "1.0y");
    assert_eq!(age(now, Some(now + 500)), "?");
}

#[test]
fn days_since_saturates_at_zero() {
    assert_eq!(days_since(100, 200), 0);
    assert_eq!(days_since(86_400 * 3, 0), 3);
}

#[test]
fn civil_dates_match_known_values() {
    assert_eq!(civil_from_days(0), (1970, 1, 1));
    assert_eq!(civil_from_days(-1), (1969, 12, 31));
    assert_eq!(civil_from_days(19_723), (2024, 1, 1));
    // 2024 is a leap year; day 60 of the year must be February 29.
    assert_eq!(civil_from_days(19_782), (2024, 2, 29));
}

#[test]
fn dates_render_iso() {
    assert_eq!(date(None), "-");
    assert_eq!(date(Some(0)), "1970-01-01");
    assert_eq!(date(Some(1_700_000_000)), "2023-11-14");
}

#[test]
fn truncate_marks_the_cut() {
    assert_eq!(truncate("ripgrep", 10), "ripgrep");
    assert_eq!(truncate("ripgrep", 7), "ripgrep");
    assert_eq!(truncate("ripgrep", 4), "rip…");
    assert_eq!(truncate("ripgrep", 1), "…");
    assert_eq!(truncate("ripgrep", 0), "");
}

#[test]
fn percent_guards_zero_total() {
    assert_eq!(percent(5, 0), 0);
    assert_eq!(percent(1, 4), 25);
}

#[test]
fn sizes_are_right_padded_to_their_column() {
    assert_eq!(bytes_padded(1536, 10), "1.5 KiB   ");
    assert_eq!(bytes_padded(1536, 3), "1.5 KiB");
}

#[test]
fn the_largest_size_is_counted_in_tebibytes() {
    assert_eq!(bytes(u64::MAX), "16777215.9 TiB");
    assert_eq!(bytes(1023), "1023 B");
    assert_eq!(bytes(1024 * 1024 - 1), "1023.9 KiB");
}

#[test]
fn ages_turn_into_years_after_a_year() {
    let day = 86_400;
    assert_eq!(age(day, Some(0)), "1d");
    assert_eq!(age(364 * day, Some(0)), "364d");
    assert_eq!(age(365 * day, Some(0)), "1.0y");
    assert_eq!(age(547 * day, Some(0)), "1.4y");
    assert_eq!(age(i64::MAX, Some(-1)), "292471208677.5y");
    assert_eq!(age(i64::MIN, Some(i64::MAX)), "?");
}

#[test]
fn dates_before_the_epoch_and_leap_days_are_right() {
    assert_eq!(date(Some(-1)), "1969-12-31");
    assert_eq!(date(Some(951_782_400)), "2000-02-29");
    assert_eq!(date(Some(-2_203_891_200)), "1900-03-01");
    assert_eq!(civil_from_days(-719_468), (0, 3, 1));
}

#[test]
fn later_timestamps_never_sort_before_earlier_ones() {
    let mut last = String::new();
    for step in 0..400 {
        let shown = date(Some(-2_000_000_000 + step * 9_999_991));
        assert!(last <= shown, "{last} {shown}");
        last = shown;
    }
}

#[test]
fn shares_are_whole_percents() {
    assert_eq!(percent(1, 3), 33);
    assert_eq!(percent(u64::MAX, u64::MAX), 100);
    assert_eq!(percent(u64::MAX / 2, u64::MAX), 49);
    assert_eq!(percent(u64::MAX, 1), u64::MAX);
}

#[test]
fn truncation_counts_characters() {
    assert_eq!(truncate("\u{e9}\u{e9}\u{e9}", 2), "\u{e9}\u{2026}");
    assert_eq!(truncate("", 0), "");
}

#[test]
fn days_are_counted_over_the_whole_range_of_timestamps() {
    assert_eq!(days_since(i64::MAX, i64::MIN), 213503982334601);
    assert_eq!(days_since(i64::MIN, i64::MAX), 0);
    assert_eq!(days_since(-1, -86_401), 1);
}
