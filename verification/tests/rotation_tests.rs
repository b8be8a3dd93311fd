use prayerbar::events::{Event, Label, Prayer};
use prayerbar::rotation::{next_after_sentinel, rotate, upcoming_event};

fn named(p: Prayer, at: u32) -> Event {
    Event { label: Label::Named(p), at }
}

fn sample_day() -> Vec<Event> {
    vec![
        named(Prayer::Fajr, 5 * 60),
        named(Prayer::Dhuhr, 12 * 60),
        named(Prayer::Asr, 15 * 60 + 30),
        named(Prayer::Maghrib, 18 * 60),
        named(Prayer::Isha, 19 * 60 + 30),
    ]
}

#[test]
fn rotate_adds_exactly_one_sentinel() {
    let events = sample_day();
    let rotated = rotate(&events, 13 * 60);
    assert_eq!(rotated.len(), events.len() + 1);
    let sentinels = rotated
        .iter()
        .filter(|e| e.label == Label::Sentinel)
        .count();
    assert_eq!(sentinels, 1);
}

#[test]
fn rotate_empty_day_is_sentinel_only() {
    let rotated = rotate(&Vec::new(), 10 * 60);
    assert_eq!(rotated.len(), 1);
    assert_eq!(rotated[0], Event { label: Label::Sentinel, at: 10 * 60 });
}

#[test]
fn rotate_moves_earliest_to_the_end() {
    let events = sample_day();
    let rotated = rotate(&events, 13 * 60);
    let expected = vec![
        named(Prayer::Dhuhr, 12 * 60),
        Event { label: Label::Sentinel, at: 13 * 60 },
        named(Prayer::Asr, 15 * 60 + 30),
        named(Prayer::Maghrib, 18 * 60),
        named(Prayer::Isha, 19 * 60 + 30),
        named(Prayer::Fajr, 5 * 60),
    ];
    assert_eq!(rotated, expected);
}

#[test]
fn next_event_between_two_events() {
    let events = sample_day();
    let rotated = rotate(&events, 13 * 60);
    let nxt = next_after_sentinel(&rotated);
    assert_eq!(nxt, named(Prayer::Asr, 15 * 60 + 30));
}

#[test]
fn next_event_wraps_past_midnight() {
    let events = sample_day();
    let rotated = rotate(&events, 20 * 60);
    let nxt = next_after_sentinel(&rotated);
    assert_eq!(nxt, named(Prayer::Fajr, 5 * 60));
}

#[test]
fn next_event_is_never_the_sentinel() {
    let events = sample_day();
    for hour in 0..24 {
        let rotated = rotate(&events, hour * 60 + 7);
        let nxt = next_after_sentinel(&rotated);
        assert_ne!(nxt.label, Label::Sentinel);
    }
}

#[test]
fn next_event_before_the_whole_day() {
    let events = sample_day();
    let rotated = rotate(&events, 2 * 60);
    let nxt = next_after_sentinel(&rotated);
    assert_eq!(nxt, named(Prayer::Fajr, 5 * 60));
}

#[test]
fn upcoming_event_agrees_with_the_rotation() {
    let events = sample_day();
    for minute in (0..1440).step_by(11) {
        let rotated = rotate(&events, minute);
        assert_eq!(upcoming_event(&events, minute), next_after_sentinel(&rotated));
    }
    assert_eq!(
        upcoming_event(&events, 13 * 60),
        Event { label: Label::Named(Prayer::Asr), at: 15 * 60 + 30 }
    );
    assert_eq!(
        upcoming_event(&events, 23 * 60),
        Event { label: Label::Named(Prayer::Fajr), at: 5 * 60 }
    );
}

#[test]
fn rotation_keeps_chronological_order_between_ends() {
    let events = sample_day();
    let rotated = rotate(&events, 13 * 60);
    for pair in rotated.windows(2).take(rotated.len() - 2) {
        assert!(pair[0].at <= pair[1].at);
    }
    assert!(rotated[rotated.len() - 1].at <= rotated[0].at);
}
