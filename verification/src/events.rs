use vstd::prelude::*;
use vstd::string::StringExecFns;
use crate::errors::PrayerError;
use crate::time::{parse_hhmm, parse_hhmm_spec, MINUTES_PER_DAY};

verus! {

/// The daily events the widget recognizes; every other key in a snapshot's
/// timing mapping is ignored.
#[derive(Clone, Copy, Debug, PartialEq, Eq, Structural)]
pub enum Prayer {
    Fajr,
    Sunrise,
    Dhuhr,
    Asr,
    Maghrib,
    Isha,
    Midnight,
}

/// What a named instant stands for: a recognized daily event, or the
/// synthetic `Current_time` sentinel inserted once per run.
#[derive(Clone, Copy, Debug, PartialEq, Eq, Structural)]
pub enum Label {
    Named(Prayer),
    Sentinel,
}

/// A named instant of the current day: a label and its minutes since local
/// midnight.
#[derive(Clone, Copy, Debug, PartialEq, Eq, Structural)]
pub struct Event {
    pub label: Label,
    pub at: u32,
}

pub open spec fn is_sentinel(e: Event) -> bool {
    e.label == Label::Sentinel
}

/// How an event is named in the remote data and in the rendered output.
pub open spec fn name_seq(l: Label) -> Seq<char> {
    match l {
        Label::Named(Prayer::Fajr) => "Fajr"@,
        Label::Named(Prayer::Sunrise) => "Sunrise"@,
        Label::Named(Prayer::Dhuhr) => "Dhuhr"@,
        Label::Named(Prayer::Asr) => "Asr"@,
        Label::Named(Prayer::Maghrib) => "Maghrib"@,
        Label::Named(Prayer::Isha) => "Isha"@,
        Label::Named(Prayer::Midnight) => "Midnight"@,
        Label::Sentinel => "Current_time"@,
    }
}

/// The display name of a label.
pub fn name_str(l: Label) -> (r: &'static str)
    ensures
        r@ == name_seq(l),
{
    match l {
        Label::Named(Prayer::Fajr) => "Fajr",
        Label::Named(Prayer::Sunrise) => "Sunrise",
        Label::Named(Prayer::Dhuhr) => "Dhuhr",
        Label::Named(Prayer::Asr) => "Asr",
        Label::Named(Prayer::Maghrib) => "Maghrib",
        Label::Named(Prayer::Isha) => "Isha",
        Label::Named(Prayer::Midnight) => "Midnight",
        Label::Sentinel => "Current_time",
    }
}

/// The decorative icon prefix of a recognized event, space included.
pub open spec fn icon_seq(p: Prayer) -> Seq<char> {
    match p {
        Prayer::Fajr => "🌄 "@,
        Prayer::Sunrise => "🌅 "@,
        Prayer::Dhuhr => "🏙️ "@,
        Prayer::Asr => "🏙️ "@,
        Prayer::Maghrib => "🌇 "@,
        Prayer::Isha => "🌃 "@,
        Prayer::Midnight => "🌃 "@,
    }
}

/// The icon prefix of a recognized event.
pub fn icon_str(p: Prayer) -> (r: &'static str)
    ensures
        r@ == icon_seq(p),
{
    match p {
        Prayer::Fajr => "🌄 ",
        Prayer::Sunrise => "🌅 ",
        Prayer::Dhuhr => "🏙️ ",
        Prayer::Asr => "🏙️ ",
        Prayer::Maghrib => "🌇 ",
        Prayer::Isha => "🌃 ",
        Prayer::Midnight => "🌃 ",
    }
}

/// Which recognized event a timing key names, if any.
pub open spec fn parse_name_spec(s: Seq<char>) -> Option<Prayer> {
    if s == "Fajr"@ {
        Some(Prayer::Fajr)
    } else if s == "Sunrise"@ {
        Some(Prayer::Sunrise)
    } else if s == "Dhuhr"@ {
        Some(Prayer::Dhuhr)
    } else if s == "Asr"@ {
        Some(Prayer::Asr)
    } else if s == "Maghrib"@ {
        Some(Prayer::Maghrib)
    } else if s == "Isha"@ {
        Some(Prayer::Isha)
    } else if s == "Midnight"@ {
        Some(Prayer::Midnight)
    } else {
        None
    }
}

fn string_eq_lit(s: &String, lit: &str) -> (r: bool)
    ensures
        r == (s@ == lit@),
{
    let l = String::from_str(lit);
    s.eq(&l)
}

/// Looks a timing key up in the allow-list of recognized events.
pub fn parse_event_name(s: &String) -> (r: Option<Prayer>)
    ensures
        r == parse_name_spec(s@),
{
    if string_eq_lit(s, "Fajr") {
        Some(Prayer::Fajr)
    } else if string_eq_lit(s, "Sunrise") {
        Some(Prayer::Sunrise)
    } else if string_eq_lit(s, "Dhuhr") {
        Some(Prayer::Dhuhr)
    } else if string_eq_lit(s, "Asr") {
        Some(Prayer::Asr)
    } else if string_eq_lit(s, "Maghrib") {
        Some(Prayer::Maghrib)
    } else if string_eq_lit(s, "Isha") {
        Some(Prayer::Isha)
    } else if string_eq_lit(s, "Midnight") {
        Some(Prayer::Midnight)
    } else {
        None
    }
}

/// The timing mapping as plain values: each key with its time string, or
/// `None` where the mapped value is not a string.
pub open spec fn entry_views(entries: Seq<(String, Option<String>)>) -> Seq<
    (Seq<char>, Option<Seq<char>>),
> {
    entries.map_values(
        |e: (String, Option<String>)|
            (
                e.0@,
                match e.1 {
                    Some(s) => Some(s@),
                    None => None,
                },
            ),
    )
}

/// What extraction returns for a timing mapping, processed in order: keys
/// outside the allow-list are skipped; a recognized key whose value is not a
/// string or not a valid `HH:MM` time fails with `MalformedTiming`; otherwise
/// each recognized key becomes a named instant of the current day.
pub open spec fn extract_spec(entries: Seq<(Seq<char>, Option<Seq<char>>)>) -> Result<
    Seq<Event>,
    PrayerError,
>
    decreases entries.len(),
{
    if entries.len() == 0 {
        Ok(Seq::empty())
    } else {
        match parse_name_spec(entries[0].0) {
            None => extract_spec(entries.drop_first()),
            Some(p) => match entries[0].1 {
                None => Err(PrayerError::MalformedTiming),
                Some(ts) => match parse_hhmm_spec(ts) {
                    None => Err(PrayerError::MalformedTiming),
                    Some(m) => match extract_spec(entries.drop_first()) {
                        Err(e) => Err(e),
                        Ok(rest) => Ok(seq![Event { label: Label::Named(p), at: m }] + rest),
                    },
                },
            },
        }
    }
}

/// Parses the timing mapping of a snapshot into the normalized events of the
/// current day (the event extractor).
pub fn extract_events(entries: &Vec<(String, Option<String>)>) -> (r: Result<
    Vec<Event>,
    PrayerError,
>)
    ensures
        match r {
            Ok(events) => extract_spec(entry_views(entries@)) == Ok::<Seq<Event>, PrayerError>(
                events@,
            ),
            Err(e) => extract_spec(entry_views(entries@)) == Err::<Seq<Event>, _>(e),
        },
        r matches Ok(events) ==> forall|k: int|
            0 <= k < events@.len() ==> (!is_sentinel(#[trigger] events@[k]) && events@[k].at
                < MINUTES_PER_DAY),
        r matches Ok(events) ==> events@.len() <= entries@.len(),
        r matches Err(e) ==> e == PrayerError::MalformedTiming,
{
    let ghost full = entry_views(entries@);
    let mut acc: Vec<Event> = Vec::new();
    let mut i: usize = 0;
    proof {
        assert(full.subrange(0, full.len() as int) =~= full);
        assert(Seq::<Event>::empty() + extract_spec(full)->Ok_0 =~= extract_spec(full)->Ok_0);
    }
    while i < entries.len()
        invariant
            i <= entries.len(),
            full == entry_views(entries@),
            full.len() == entries@.len(),
            acc@.len() <= i,
            forall|k: int|
                0 <= k < acc@.len() ==> (!is_sentinel(#[trigger] acc@[k]) && acc@[k].at
                    < MINUTES_PER_DAY),
            extract_spec(full) == match extract_spec(full.subrange(i as int, full.len() as int)) {
                Ok(rest) => Ok::<Seq<Event>, PrayerError>(acc@ + rest),
                Err(e) => Err::<Seq<Event>, PrayerError>(e),
            },
        decreases entries.len() - i,
    {
        let ghost suffix = full.subrange(i as int, full.len() as int);
        proof {
            assert(suffix.len() > 0);
            assert(suffix[0] == full[i as int]);
            assert(suffix.drop_first() =~= full.subrange(i as int + 1, full.len() as int));
        }
        let (name, value) = &entries[i];
        match parse_event_name(name) {
            None => {},
            Some(p) => {
                match value {
                    None => {
                        return Err(PrayerError::MalformedTiming);
                    },
                    Some(ts) => {
                        match parse_hhmm(ts.as_str()) {
                            None => {
                                return Err(PrayerError::MalformedTiming);
                            },
                            Some(m) => {
                                let ghost prior = acc@;
                                let ev = Event { label: Label::Named(p), at: m };
                                acc.push(ev);
                                proof {
                                    let rest = extract_spec(
                                        full.subrange(i as int + 1, full.len() as int),
                                    );
                                    if rest is Ok {
                                        assert(prior + (seq![ev] + rest->Ok_0) =~= acc@
                                            + rest->Ok_0);
                                    }
                                }
                            },
                        }
                    },
                }
            },
        }
        i = i + 1;
    }
    proof {
        assert(full.subrange(entries@.len() as int, full.len() as int) =~= Seq::<
            (Seq<char>, Option<Seq<char>>),
        >::empty());
        assert(acc@ + Seq::<Event>::empty() =~= acc@);
    }
    Ok(acc)
}

} // verus!
