use vstd::prelude::*;
use serde_json::Value;
use crate::errors::PrayerError;
use crate::events::{entry_views, extract_spec, Event};
use crate::render::{build_output, degraded_spec, rendered_spec, HijriLabel, Output};
use crate::time::MINUTES_PER_DAY;

verus! {

/// The remote service's structured snapshot for one day; opaque to the
/// verified logic, which only reads plain values out of it through the
/// trusted accessors below.
#[verifier::external_type_specification]
#[verifier::external_body]
pub struct ExValue(Value);

/// Whether a text is one JSON document that serde_json accepts; what
/// `serde_json::from_str` decides, a function of the text alone.
pub uninterp spec fn is_valid_json(s: Seq<char>) -> bool;

/// Relies on serde_json::from_str: `Ok` exactly when the text is one valid
/// JSON document, which names the success condition `is_valid_json`.
#[verifier::external_body]
fn json_from_text(text: &str) -> (r: Option<Value>)
    ensures
        r is Some <==> is_valid_json(text@),
{
    match serde_json::from_str::<Value>(text) {
        Ok(v) => Some(v),
        Err(_) => None,
    }
}

/// Relies on serde_json::Value::get: the value under `key` when `v` is an
/// object that holds the key, `None` otherwise.
#[verifier::external_body]
fn json_get<'a>(v: &'a Value, key: &str) -> (r: Option<&'a Value>) {
    v.get(key)
}

/// Relies on serde_json::Value::as_str: the contained text when `v` is a
/// JSON string, `None` otherwise.
#[verifier::external_body]
fn json_as_string(v: &Value) -> (r: Option<String>) {
    match v.as_str() {
        Some(s) => Some(s.to_owned()),
        None => None,
    }
}

/// Relies on serde_json::Value::as_object: the object's key/value pairs in
/// the map's iteration order, `None` when `v` is not an object.
#[verifier::external_body]
fn json_object_pairs(v: &Value) -> (r: Option<Vec<(String, Value)>>) {
    match v.as_object() {
        Some(m) => Some(m.iter().map(|(k, val)| (k.clone(), val.clone())).collect()),
        None => None,
    }
}

/// Relies on chrono::Local::now with chrono::Timelike::hour and ::minute:
/// a wall-clock hour is below 24 and a minute below 60.
#[verifier::external_body]
fn local_hour_minute() -> (r: (u32, u32))
    ensures
        r.0 < 24,
        r.1 < 60,
{
    let t = chrono::Local::now();
    (chrono::Timelike::hour(&t), chrono::Timelike::minute(&t))
}

/// The current local instant as minutes since midnight.
pub fn current_minutes() -> (r: u32)
    ensures
        r < crate::time::MINUTES_PER_DAY,
{
    let (h, m) = local_hour_minute();
    h * 60 + m
}

/// Parses the bytes of a cached or freshly fetched snapshot. The structured
/// document itself stays opaque; it succeeds exactly on valid JSON text and
/// fails with `CacheCorrupt` on anything else.
pub fn parse_snapshot(text: &str) -> (r: Result<Value, PrayerError>)
    ensures
        r is Ok <==> is_valid_json(text@),
        r is Err ==> r->Err_0 == PrayerError::CacheCorrupt,
{
    match json_from_text(text) {
        Some(v) => Ok(v),
        None => Err(PrayerError::CacheCorrupt),
    }
}

/// The snapshot's timing mapping (`data.timings`) as plain pairs: each key
/// with its time text, `None` standing for a non-string value. Returns `None`
/// when the snapshot has no such mapping.
pub fn timing_entries(v: &Value) -> (r: Option<Vec<(String, Option<String>)>>) {
    let data = match json_get(v, "data") {
        Some(d) => d,
        None => {
            return None;
        },
    };
    let timings = match json_get(data, "timings") {
        Some(t) => t,
        None => {
            return None;
        },
    };
    let pairs = match json_object_pairs(timings) {
        Some(p) => p,
        None => {
            return None;
        },
    };
    let mut entries: Vec<(String, Option<String>)> = Vec::new();
    let mut i: usize = 0;
    while i < pairs.len()
        decreases pairs@.len() - i,
    {
        let (name, value) = &pairs[i];
        entries.push((name.clone(), json_as_string(value)));
        i = i + 1;
    }
    Some(entries)
}

/// The localized calendar descriptor (`data.date.hijri`): its date text and
/// the month and weekday names in the requested language. Returns `None`
/// when any part is absent or not a string — the caller degrades, since this
/// commonly means the location upstream was invalid.
pub fn hijri_label(v: &Value, arabic: bool) -> (r: Option<HijriLabel>) {
    let lang: &str = if arabic {
        "ar"
    } else {
        "en"
    };
    let data = match json_get(v, "data") {
        Some(d) => d,
        None => {
            return None;
        },
    };
    let date_node = match json_get(data, "date") {
        Some(d) => d,
        None => {
            return None;
        },
    };
    let hijri = match json_get(date_node, "hijri") {
        Some(h) => h,
        None => {
            return None;
        },
    };
    let date = match json_get(hijri, "date") {
        Some(d) => json_as_string(d),
        None => None,
    };
    let month = match json_get(hijri, "month") {
        Some(m) => match json_get(m, lang) {
            Some(name) => json_as_string(name),
            None => None,
        },
        None => None,
    };
    let weekday = match json_get(hijri, "weekday") {
        Some(w) => match json_get(w, lang) {
            Some(name) => json_as_string(name),
            None => None,
        },
        None => None,
    };
    match (date, month, weekday) {
        (Some(date), Some(month), Some(weekday)) => Some(HijriLabel { date, month, weekday }),
        _ => None,
    }
}

/// The whole run on one snapshot: reads the clock, extracts the timing
/// mapping and the calendar descriptor, and hands the plain values to the
/// verified pipeline. Whatever the snapshot holds and whatever the clock
/// reads, the result is either the fixed degraded output or a faithful
/// rendering of some non-empty day at some valid instant — the host always
/// receives both fields.
pub fn snapshot_output(v: &Value, city: &str, arabic: bool) -> (out: Output)
    ensures
        degraded_spec(out) || (exists|events: Seq<Event>, h: HijriLabel, m: u32|
            m < MINUTES_PER_DAY && events.len() >= 1 && rendered_spec(out, events, city@, h, m)),
{
    let now = current_minutes();
    let entries = timing_entries(v);
    let hijri = hijri_label(v, arabic);
    // a mapping that fills the whole address space cannot gain an entry more;
    // treat it as absent rather than feed it to the pipeline
    let entries_ref = match &entries {
        Some(e) => {
            if e.len() == usize::MAX {
                None
            } else {
                Some(e)
            }
        },
        None => None,
    };
    let hijri_ref = match &hijri {
        Some(h) => Some(h),
        None => None,
    };
    let out = build_output(entries_ref, hijri_ref, city, now);
    proof {
        if entries_ref is Some && hijri_ref is Some {
            let t = entries_ref->Some_0;
            let h = *(hijri_ref->Some_0);
            match extract_spec(entry_views(t@)) {
                Ok(ev) => {
                    if ev.len() >= 1 {
                        assert(rendered_spec(out, ev, city@, h, now));
                        assert(exists|events: Seq<Event>, h2: HijriLabel, m: u32|
                            m < MINUTES_PER_DAY && events.len() >= 1 && rendered_spec(
                                out,
                                events,
                                city@,
                                h2,
                                m,
                            ));
                    } else {
                        assert(degraded_spec(out));
                    }
                },
                Err(_) => {
                    assert(degraded_spec(out));
                },
            }
        } else {
            assert(degraded_spec(out));
        }
    }
    out
}

} // verus!
