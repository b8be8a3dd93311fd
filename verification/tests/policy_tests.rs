use prayerbar::cache::is_fresh;
use prayerbar::errors::PrayerError;
use prayerbar::fetch::retry_decision;
use prayerbar::snapshot::current_minutes;
use prayerbar::time::{format_hhmm, parse_hhmm};

const WINDOW: u64 = 10_800;

#[test]
fn freshness_holds_inside_the_window() {
    assert!(is_fresh(1_000_000, Some(1_000_000 - WINDOW + 1), WINDOW));
    assert!(is_fresh(1_000_000, Some(1_000_000), WINDOW));
}

#[test]
fn freshness_ends_exactly_when_the_window_elapses() {
    let modified = 1_000_000u64;
    assert!(is_fresh(modified + WINDOW - 1, Some(modified), WINDOW));
    assert!(!is_fresh(modified + WINDOW, Some(modified), WINDOW));
    assert!(!is_fresh(modified + WINDOW + 1, Some(modified), WINDOW));
}

#[test]
fn unreadable_modification_time_is_never_fresh() {
    assert!(!is_fresh(1_000_000, None, WINDOW));
}

#[test]
fn future_modification_time_counts_as_fresh() {
    assert!(is_fresh(1_000_000, Some(1_000_001), WINDOW));
}

#[test]
fn backoff_grows_linearly() {
    assert_eq!(retry_decision(1), Ok(500));
    assert_eq!(retry_decision(2), Ok(1_000));
    assert_eq!(retry_decision(19), Ok(9_500));
}

#[test]
fn retries_are_exhausted_at_the_ceiling() {
    assert_eq!(retry_decision(20), Err(PrayerError::FetchExhausted));
    assert_eq!(retry_decision(21), Err(PrayerError::FetchExhausted));
}

#[test]
fn clock_times_parse_exactly() {
    assert_eq!(parse_hhmm("05:00"), Some(5 * 60));
    assert_eq!(parse_hhmm("00:00"), Some(0));
    assert_eq!(parse_hhmm("23:59"), Some(23 * 60 + 59));
    assert_eq!(parse_hhmm("24:00"), None);
    assert_eq!(parse_hhmm("12:60"), None);
    assert_eq!(parse_hhmm("5:00"), None);
    assert_eq!(parse_hhmm("12-30"), None);
    assert_eq!(parse_hhmm("ab:cd"), None);
    assert_eq!(parse_hhmm(""), None);
}

#[test]
fn clock_times_format_zero_padded() {
    assert_eq!(format_hhmm(5 * 60), "05:00");
    assert_eq!(format_hhmm(0), "00:00");
    assert_eq!(format_hhmm(23 * 60 + 59), "23:59");
    assert_eq!(format_hhmm(15 * 60 + 30), "15:30");
}

#[test]
fn formatting_and_parsing_round_trip() {
    for m in [0u32, 1, 59, 60, 719, 720, 1439] {
        assert_eq!(parse_hhmm(&format_hhmm(m)), Some(m));
    }
}

#[test]
fn the_clock_reads_a_valid_time_of_day() {
    assert!(current_minutes() < 1440);
}
