use vstd::prelude::*;
use vstd::string::StringExecFns;
use crate::errors::PrayerError;
use crate::events::{
    entry_views, extract_events, extract_spec, icon_seq, icon_str, is_sentinel, name_seq, name_str,
    Event, Label,
};
use crate::rotation::{next_after_sentinel, rotate, rotate_spec};
use crate::time::{format_hhmm, hhmm_seq, MINUTES_PER_DAY};

verus! {

/// The localized calendar descriptor of the day, already looked up in the
/// requested language.
#[derive(Debug, PartialEq, Eq)]
pub struct HijriLabel {
    pub date: String,
    pub month: String,
    pub weekday: String,
}

/// The widget's whole result: a short next-event line and a multi-line
/// tooltip, the only two fields the status-bar host reads.
#[derive(Debug, PartialEq, Eq)]
pub struct Output {
    pub text: String,
    pub tooltip: String,
}

/// The short next-event line: the Kaaba mark, the event's name and its time.
pub open spec fn text_seq(nxt: Event) -> Seq<char> {
    "🕋 "@ + name_seq(nxt.label) + " "@ + hhmm_seq(nxt.at as int)
}

/// One tooltip line per named event; the sentinel leaves no line.
pub open spec fn line_seq(e: Event) -> Seq<char> {
    match e.label {
        Label::Named(p) => icon_seq(p) + name_seq(e.label) + " at "@ + hhmm_seq(e.at as int)
            + "\n"@,
        Label::Sentinel => Seq::empty(),
    }
}

/// The tooltip lines of a rotated sequence, in rotated order.
pub open spec fn lines_seq(s: Seq<Event>) -> Seq<char>
    decreases s.len(),
{
    if s.len() == 0 {
        Seq::empty()
    } else {
        lines_seq(s.drop_last()) + line_seq(s.last())
    }
}

/// The tooltip header naming the location.
pub open spec fn header_seq(city: Seq<char>) -> Seq<char> {
    "<b>Prayer times in "@ + city + "</b>\n\n"@
}

/// The calendar line under the header.
pub open spec fn hijri_seq(h: HijriLabel) -> Seq<char> {
    "🗓️ "@ + h.date@ + " "@ + h.month@ + " "@ + h.weekday@ + "\n\n"@
}

/// The whole tooltip: header, calendar line, one line per named event.
pub open spec fn tooltip_seq(city: Seq<char>, h: HijriLabel, rotated: Seq<Event>) -> Seq<char> {
    header_seq(city) + hijri_seq(h) + lines_seq(rotated)
}

/// The presenter: renders the rotated sequence and the chosen next event
/// into the two output strings. Performs no parsing and cannot fail.
pub fn render(rotated: &Vec<Event>, nxt: Event, city: &str, hijri: &HijriLabel) -> (out: Output)
    requires
        nxt.at < MINUTES_PER_DAY,
        forall|k: int| 0 <= k < rotated@.len() ==> (#[trigger] rotated@[k]).at < MINUTES_PER_DAY,
    ensures
        out.text@ == text_seq(nxt),
        out.tooltip@ == tooltip_seq(city@, *hijri, rotated@),
{
    let mut text = String::from_str("🕋 ");
    text.append(name_str(nxt.label));
    text.append(" ");
    let clock = format_hhmm(nxt.at);
    text.append(clock.as_str());
    proof {
        assert(text@ =~= text_seq(nxt));
    }

    let mut tooltip = String::from_str("<b>Prayer times in ");
    tooltip.append(city);
    tooltip.append("</b>\n\n");
    tooltip.append("🗓️ ");
    tooltip.append(hijri.date.as_str());
    tooltip.append(" ");
    tooltip.append(hijri.month.as_str());
    tooltip.append(" ");
    tooltip.append(hijri.weekday.as_str());
    tooltip.append("\n\n");
    let ghost head = header_seq(city@) + hijri_seq(*hijri);
    proof {
        assert(tooltip@ =~= head);
        assert(tooltip@ =~= head + lines_seq(rotated@.subrange(0, 0)));
    }
    let mut i: usize = 0;
    while i < rotated.len()
        invariant
            i <= rotated@.len(),
            forall|k: int| 0 <= k < rotated@.len() ==> (#[trigger] rotated@[k]).at
                < MINUTES_PER_DAY,
            head == header_seq(city@) + hijri_seq(*hijri),
            tooltip@ == head + lines_seq(rotated@.subrange(0, i as int)),
        decreases rotated@.len() - i,
    {
        let e = rotated[i];
        match e.label {
            Label::Named(p) => {
                tooltip.append(icon_str(p));
                tooltip.append(name_str(e.label));
                tooltip.append(" at ");
                let at_clock = format_hhmm(e.at);
                tooltip.append(at_clock.as_str());
                tooltip.append("\n");
            },
            Label::Sentinel => {},
        }
        proof {
            assert(rotated@.subrange(0, i as int + 1).drop_last() =~= rotated@.subrange(
                0,
                i as int,
            ));
            assert(rotated@.subrange(0, i as int + 1).last() == rotated@[i as int]);
            assert(tooltip@ =~= head + lines_seq(rotated@.subrange(0, i as int + 1)));
        }
        i = i + 1;
    }
    proof {
        assert(rotated@.subrange(0, rotated@.len() as int) =~= rotated@);
    }
    Output { text, tooltip }
}

/// Whether an output is the fixed degraded fallback the host always accepts.
pub open spec fn degraded_spec(out: Output) -> bool {
    out.text@ == "N/A"@ && out.tooltip@ == "N/A"@
}

/// The degraded output: both fields present, both the fixed sentinel text.
pub fn degraded_output() -> (out: Output)
    ensures
        degraded_spec(out),
{
    Output { text: String::from_str("N/A"), tooltip: String::from_str("N/A") }
}

/// The output renders the given day: the tooltip lists the rotated sequence
/// and the text names the rotated successor of the (unique) sentinel — an
/// event of the day, never the sentinel itself.
pub open spec fn rendered_spec(
    out: Output,
    events: Seq<Event>,
    city: Seq<char>,
    h: HijriLabel,
    now: u32,
) -> bool {
    let r = rotate_spec(events, now);
    exists|i: int|
        0 <= i < r.len() && is_sentinel(#[trigger] r[i]) && !is_sentinel(
            r[(i + 1) % (r.len() as int)],
        ) && out.text@ == text_seq(r[(i + 1) % (r.len() as int)]) && out.tooltip@ == tooltip_seq(
            city,
            h,
            r,
        )
}

/// The core pipeline on plain values: extract the recognized events, rotate
/// them around the current instant, and render. It fails with `MissingField`
/// exactly when the snapshot lacked the timing mapping or the calendar
/// descriptor, or when the mapping yields no recognized event — with an
/// empty day the sentinel would be its own successor and there is no next
/// event to name. It fails with `MalformedTiming` exactly when a recognized
/// timing does not parse; otherwise it succeeds with the rendered output.
pub fn evaluate_snapshot(
    timings: Option<&Vec<(String, Option<String>)>>,
    hijri: Option<&HijriLabel>,
    city: &str,
    now: u32,
) -> (r: Result<Output, PrayerError>)
    requires
        now < MINUTES_PER_DAY,
        timings matches Some(t) ==> t@.len() < usize::MAX,
    ensures
        (timings is None || hijri is None) ==> r == Err::<Output, PrayerError>(
            PrayerError::MissingField,
        ),
        (timings is Some && hijri is Some) ==> match extract_spec(
            entry_views(timings->Some_0@),
        ) {
            Err(e) => r == Err::<Output, PrayerError>(e),
            Ok(events) => if events.len() == 0 {
                r == Err::<Output, PrayerError>(PrayerError::MissingField)
            } else {
                r is Ok && rendered_spec(r->Ok_0, events, city@, *(hijri->Some_0), now)
            },
        },
{
    match (timings, hijri) {
        (Some(t), Some(h)) => {
            match extract_events(t) {
                Err(e) => Err(e),
                Ok(events) => {
                    if events.len() == 0 {
                        return Err(PrayerError::MissingField);
                    }
                    let rotated = rotate(&events, now);
                    let nxt = next_after_sentinel(&rotated);
                    proof {
                        assert forall|k: int|
                            0 <= k < rotated@.len() implies (#[trigger] rotated@[k]).at
                            < MINUTES_PER_DAY by {
                            assert(rotated@.contains(rotated@[k]));
                        }
                        let i0 = choose|i: int|
                            0 <= i < rotated@.len() && is_sentinel(#[trigger] rotated@[i]) && nxt
                                == rotated@[(i + 1) % (rotated@.len() as int)];
                        assert(rotated@.contains(nxt)) by {
                            assert(rotated@[(i0 + 1) % (rotated@.len() as int)] == nxt);
                        }
                    }
                    let out = render(&rotated, nxt, city, h);
                    proof {
                        let r = rotate_spec(events@, now);
                        assert(rotated@ == r);
                        let i0 = choose|i: int|
                            0 <= i < rotated@.len() && is_sentinel(#[trigger] rotated@[i]) && nxt
                                == rotated@[(i + 1) % (rotated@.len() as int)];
                        assert(is_sentinel(r[i0]));
                        assert(rotated@.len() >= 2);
                        assert(!is_sentinel(nxt));
                        assert(!is_sentinel(r[(i0 + 1) % (r.len() as int)]));
                        assert(out.text@ == text_seq(r[(i0 + 1) % (r.len() as int)]));
                        assert(out.tooltip@ == tooltip_seq(city@, *h, r));
                        assert(rendered_spec(out, events@, city@, *h, now));
                    }
                    Ok(out)
                },
            }
        },
        _ => Err(PrayerError::MissingField),
    }
}

/// The pipeline with the recovery policy of the run applied: any failure —
/// a missing timing mapping or calendar descriptor, a mapping without one
/// recognized event, or a malformed recognized timing — degrades to the
/// fixed `N/A` output instead of aborting, so the host always receives both
/// fields.
pub fn build_output(
    timings: Option<&Vec<(String, Option<String>)>>,
    hijri: Option<&HijriLabel>,
    city: &str,
    now: u32,
) -> (out: Output)
    requires
        now < MINUTES_PER_DAY,
        timings matches Some(t) ==> t@.len() < usize::MAX,
    ensures
        (timings is None || hijri is None) ==> degraded_spec(out),
        (timings is Some && hijri is Some) ==> match extract_spec(
            entry_views(timings->Some_0@),
        ) {
            Err(_) => degraded_spec(out),
            Ok(events) => if events.len() == 0 {
                degraded_spec(out)
            } else {
                rendered_spec(out, events, city@, *(hijri->Some_0), now)
            },
        },
{
    match evaluate_snapshot(timings, hijri, city, now) {
        Ok(out) => out,
        Err(_) => degraded_output(),
    }
}

} // verus!
