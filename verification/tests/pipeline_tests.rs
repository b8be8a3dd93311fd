use prayerbar::errors::PrayerError;
use prayerbar::events::{extract_events, parse_event_name, Event, Label, Prayer};
use prayerbar::render::{build_output, degraded_output, evaluate_snapshot, render, HijriLabel};
use prayerbar::rotation::rotate;
use prayerbar::snapshot::{hijri_label, parse_snapshot, snapshot_output, timing_entries};

fn entry(name: &str, time: &str) -> (String, Option<String>) {
    (name.to_string(), Some(time.to_string()))
}

fn sample_entries() -> Vec<(String, Option<String>)> {
    vec![
        entry("Fajr", "05:00"),
        entry("Dhuhr", "12:00"),
        entry("Asr", "15:30"),
        entry("Maghrib", "18:00"),
        entry("Isha", "19:30"),
    ]
}

fn sample_hijri() -> HijriLabel {
    HijriLabel {
        date: "10-03-1447".to_string(),
        month: "Ramadan".to_string(),
        weekday: "Friday".to_string(),
    }
}

#[test]
fn next_event_in_the_afternoon() {
    let out = build_output(
        Some(&sample_entries()),
        Some(&sample_hijri()),
        "Mecca",
        13 * 60,
    );
    assert_eq!(out.text, "🕋 Asr 15:30");
}

#[test]
fn full_tooltip_in_the_afternoon() {
    let out = build_output(
        Some(&sample_entries()),
        Some(&sample_hijri()),
        "Mecca",
        13 * 60,
    );
    let expected = "<b>Prayer times in Mecca</b>\n\n\
        🗓️ 10-03-1447 Ramadan Friday\n\n\
        🏙️ Dhuhr at 12:00\n\
        🏙️ Asr at 15:30\n\
        🌇 Maghrib at 18:00\n\
        🌃 Isha at 19:30\n\
        🌄 Fajr at 05:00\n";
    assert_eq!(out.tooltip, expected);
}

#[test]
fn next_event_wraps_to_tomorrow() {
    let out = build_output(
        Some(&sample_entries()),
        Some(&sample_hijri()),
        "Mecca",
        20 * 60,
    );
    assert_eq!(out.text, "🕋 Fajr 05:00");
}

#[test]
fn unrecognized_event_is_excluded() {
    let mut entries = sample_entries();
    entries.insert(0, entry("Imsak", "04:30"));
    let out = build_output(Some(&entries), Some(&sample_hijri()), "Mecca", 13 * 60);
    assert_eq!(out.text, "🕋 Asr 15:30");
    assert!(!out.text.contains("Imsak"));
    assert!(!out.tooltip.contains("Imsak"));
}

#[test]
fn missing_timings_degrade_to_not_available() {
    let out = build_output(None, Some(&sample_hijri()), "Mecca", 13 * 60);
    assert_eq!(out.text, "N/A");
    assert_eq!(out.tooltip, "N/A");
}

#[test]
fn missing_calendar_degrades_to_not_available() {
    let out = build_output(Some(&sample_entries()), None, "Mecca", 13 * 60);
    assert_eq!(out.text, "N/A");
    assert_eq!(out.tooltip, "N/A");
}

#[test]
fn malformed_timing_fails_extraction() {
    let mut entries = sample_entries();
    entries.push(entry("Midnight", "25:00"));
    assert_eq!(extract_events(&entries), Err(PrayerError::MalformedTiming));
    let mut entries2 = sample_entries();
    entries2.push(("Sunrise".to_string(), None));
    assert_eq!(extract_events(&entries2), Err(PrayerError::MalformedTiming));
}

#[test]
fn extraction_keeps_recognized_events_in_order() {
    let mut entries = sample_entries();
    entries.insert(2, entry("Lastthird", "02:40"));
    let events = extract_events(&entries).unwrap();
    let expected = vec![
        Event { label: Label::Named(Prayer::Fajr), at: 5 * 60 },
        Event { label: Label::Named(Prayer::Dhuhr), at: 12 * 60 },
        Event { label: Label::Named(Prayer::Asr), at: 15 * 60 + 30 },
        Event { label: Label::Named(Prayer::Maghrib), at: 18 * 60 },
        Event { label: Label::Named(Prayer::Isha), at: 19 * 60 + 30 },
    ];
    assert_eq!(events, expected);
}

#[test]
fn event_names_parse_only_from_the_allow_list() {
    assert_eq!(parse_event_name(&"Fajr".to_string()), Some(Prayer::Fajr));
    assert_eq!(parse_event_name(&"Midnight".to_string()), Some(Prayer::Midnight));
    assert_eq!(parse_event_name(&"Imsak".to_string()), None);
    assert_eq!(parse_event_name(&"fajr".to_string()), None);
}

#[test]
fn missing_timings_field_in_snapshot_degrades() {
    let v = parse_snapshot("{\"code\": 200}").unwrap();
    let out = snapshot_output(&v, "Mecca", false);
    assert_eq!(out.text, "N/A");
    assert_eq!(out.tooltip, "N/A");
}

#[test]
fn corrupt_snapshot_text_is_rejected() {
    assert_eq!(
        parse_snapshot("{not json").map(|_| ()),
        Err(PrayerError::CacheCorrupt)
    );
}

fn sample_snapshot_text() -> &'static str {
    "{\"data\": {\"timings\": {\"Fajr\": \"05:00\", \"Dhuhr\": \"12:00\", \"Asr\": \"15:30\", \
     \"Imsak\": \"04:45\"}, \"date\": {\"hijri\": {\"date\": \"10-03-1447\", \
     \"month\": {\"en\": \"Ramadan\", \"ar\": \"رمضان\"}, \
     \"weekday\": {\"en\": \"Friday\", \"ar\": \"الجمعة\"}}}}}"
}

#[test]
fn snapshot_fields_reach_the_pipeline() {
    let v = parse_snapshot(sample_snapshot_text()).unwrap();
    let entries = timing_entries(&v).unwrap();
    assert!(entries.contains(&entry("Fajr", "05:00")));
    assert!(entries.contains(&entry("Imsak", "04:45")));
    let h = hijri_label(&v, false).unwrap();
    assert_eq!(h, sample_hijri());
    let h_ar = hijri_label(&v, true).unwrap();
    assert_eq!(h_ar.month, "رمضان");
    assert_eq!(h_ar.date, "10-03-1447");
}

#[test]
fn cache_round_trip_preserves_the_snapshot() {
    let v1 = parse_snapshot(sample_snapshot_text()).unwrap();
    let stored = serde_json::to_string_pretty(&v1).unwrap();
    let v2 = parse_snapshot(&stored).unwrap();
    assert_eq!(timing_entries(&v1), timing_entries(&v2));
    assert_eq!(hijri_label(&v1, false), hijri_label(&v2, false));
    assert_eq!(hijri_label(&v1, true), hijri_label(&v2, true));
}

#[test]
fn absent_inputs_are_a_missing_field() {
    assert_eq!(
        evaluate_snapshot(None, Some(&sample_hijri()), "Mecca", 13 * 60),
        Err(PrayerError::MissingField)
    );
    assert_eq!(
        evaluate_snapshot(Some(&sample_entries()), None, "Mecca", 13 * 60),
        Err(PrayerError::MissingField)
    );
    let mut entries = sample_entries();
    entries.push(entry("Isha", "7:30pm"));
    assert_eq!(
        evaluate_snapshot(Some(&entries), Some(&sample_hijri()), "Mecca", 13 * 60),
        Err(PrayerError::MalformedTiming)
    );
    let ok = evaluate_snapshot(
        Some(&sample_entries()),
        Some(&sample_hijri()),
        "Mecca",
        13 * 60,
    )
    .unwrap();
    assert_eq!(ok.text, "🕋 Asr 15:30");
}

#[test]
fn a_day_without_recognized_events_degrades() {
    let only_unrecognized = vec![entry("Imsak", "04:30"), entry("Lastthird", "02:40")];
    assert_eq!(
        evaluate_snapshot(Some(&only_unrecognized), Some(&sample_hijri()), "Mecca", 13 * 60),
        Err(PrayerError::MissingField)
    );
    let out = build_output(Some(&only_unrecognized), Some(&sample_hijri()), "Mecca", 13 * 60);
    assert_eq!(out.text, "N/A");
    assert_eq!(out.tooltip, "N/A");
    let empty: Vec<(String, Option<String>)> = Vec::new();
    assert_eq!(
        evaluate_snapshot(Some(&empty), Some(&sample_hijri()), "Mecca", 13 * 60),
        Err(PrayerError::MissingField)
    );
}

#[test]
fn the_text_never_names_the_sentinel() {
    let snapshot = "{\"data\": {\"timings\": {\"Imsak\": \"04:45\"}, \
         \"date\": {\"hijri\": {\"date\": \"10-03-1447\", \
         \"month\": {\"en\": \"Ramadan\"}, \"weekday\": {\"en\": \"Friday\"}}}}}";
    let v = parse_snapshot(snapshot).unwrap();
    let out = snapshot_output(&v, "Mecca", false);
    assert_eq!(out.text, "N/A");
    assert_eq!(out.tooltip, "N/A");
    assert!(!out.text.contains("Current_time"));
    let full = parse_snapshot(sample_snapshot_text()).unwrap();
    let out_full = snapshot_output(&full, "Mecca", false);
    assert!(!out_full.text.contains("Current_time"));
    assert!(!out_full.tooltip.contains("Current_time"));
}

#[test]
fn degraded_output_has_both_fields() {
    let out = degraded_output();
    assert_eq!(out.text, "N/A");
    assert_eq!(out.tooltip, "N/A");
}

#[test]
fn render_prefixes_icons_and_skips_the_sentinel() {
    let events = vec![
        Event { label: Label::Named(Prayer::Fajr), at: 5 * 60 },
        Event { label: Label::Named(Prayer::Sunrise), at: 6 * 60 + 15 },
    ];
    let rotated = rotate(&events, 5 * 60 + 30);
    let nxt = Event { label: Label::Named(Prayer::Sunrise), at: 6 * 60 + 15 };
    let out = render(&rotated, nxt, "Tunis", &sample_hijri());
    assert_eq!(out.text, "🕋 Sunrise 06:15");
    let expected = "<b>Prayer times in Tunis</b>\n\n\
        🗓️ 10-03-1447 Ramadan Friday\n\n\
        🌅 Sunrise at 06:15\n\
        🌄 Fajr at 05:00\n";
    assert_eq!(out.tooltip, expected);
}
