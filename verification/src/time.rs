use vstd::prelude::*;
use vstd::string::StrSliceExecFns;
use vstd::string::StringExecFns;

verus! {

/// All instants of one day are minutes since local midnight, below this bound.
pub const MINUTES_PER_DAY: u32 = 1440;

/// The numeric value of a decimal digit character, if it is one.
pub open spec fn digit_val_spec(c: char) -> Option<u32> {
    if c == '0' {
        Some(0u32)
    } else if c == '1' {
        Some(1u32)
    } else if c == '2' {
        Some(2u32)
    } else if c == '3' {
        Some(3u32)
    } else if c == '4' {
        Some(4u32)
    } else if c == '5' {
        Some(5u32)
    } else if c == '6' {
        Some(6u32)
    } else if c == '7' {
        Some(7u32)
    } else if c == '8' {
        Some(8u32)
    } else if c == '9' {
        Some(9u32)
    } else {
        None
    }
}

fn digit_val(c: char) -> (r: Option<u32>)
    ensures
        r == digit_val_spec(c),
{
    match c {
        '0' => Some(0),
        '1' => Some(1),
        '2' => Some(2),
        '3' => Some(3),
        '4' => Some(4),
        '5' => Some(5),
        '6' => Some(6),
        '7' => Some(7),
        '8' => Some(8),
        '9' => Some(9),
        _ => None,
    }
}

/// What a time-of-day string means: exactly `HH:MM` with a valid 24-hour
/// reading gives the minutes since midnight; anything else is rejected.
pub open spec fn parse_hhmm_spec(s: Seq<char>) -> Option<u32> {
    if s.len() == 5 && s[2] == ':' && digit_val_spec(s[0]) is Some && digit_val_spec(s[1]) is Some
        && digit_val_spec(s[3]) is Some && digit_val_spec(s[4]) is Some {
        let h = digit_val_spec(s[0])->Some_0 * 10 + digit_val_spec(s[1])->Some_0;
        let m = digit_val_spec(s[3])->Some_0 * 10 + digit_val_spec(s[4])->Some_0;
        if h < 24 && m < 60 {
            Some(((h * 60 + m)) as u32)
        } else {
            None
        }
    } else {
        None
    }
}

/// Parses a `HH:MM` time-of-day string into minutes since midnight.
pub fn parse_hhmm(s: &str) -> (r: Option<u32>)
    ensures
        r == parse_hhmm_spec(s@),
        r matches Some(m) ==> m < MINUTES_PER_DAY,
{
    if s.unicode_len() != 5 {
        return None;
    }
    if s.get_char(2) != ':' {
        return None;
    }
    let d0 = digit_val(s.get_char(0));
    let d1 = digit_val(s.get_char(1));
    let d3 = digit_val(s.get_char(3));
    let d4 = digit_val(s.get_char(4));
    match (d0, d1, d3, d4) {
        (Some(a), Some(b), Some(c), Some(d)) => {
            let h = a * 10 + b;
            let m = c * 10 + d;
            if h < 24 && m < 60 {
                Some(h * 60 + m)
            } else {
                None
            }
        },
        _ => None,
    }
}

/// The character that prints a digit.
pub open spec fn digit_char_spec(d: int) -> char {
    if d == 0 {
        '0'
    } else if d == 1 {
        '1'
    } else if d == 2 {
        '2'
    } else if d == 3 {
        '3'
    } else if d == 4 {
        '4'
    } else if d == 5 {
        '5'
    } else if d == 6 {
        '6'
    } else if d == 7 {
        '7'
    } else if d == 8 {
        '8'
    } else {
        '9'
    }
}

fn digit_str(d: u32) -> (r: &'static str)
    requires
        d < 10,
    ensures
        r@ == seq![digit_char_spec(d as int)],
{
    if d == 0 {
        proof { reveal_strlit("0"); }
        assert("0"@ =~= seq![digit_char_spec(d as int)]);
        "0"
    } else if d == 1 {
        proof { reveal_strlit("1"); }
        assert("1"@ =~= seq![digit_char_spec(d as int)]);
        "1"
    } else if d == 2 {
        proof { reveal_strlit("2"); }
        assert("2"@ =~= seq![digit_char_spec(d as int)]);
        "2"
    } else if d == 3 {
        proof { reveal_strlit("3"); }
        assert("3"@ =~= seq![digit_char_spec(d as int)]);
        "3"
    } else if d == 4 {
        proof { reveal_strlit("4"); }
        assert("4"@ =~= seq![digit_char_spec(d as int)]);
        "4"
    } else if d == 5 {
        proof { reveal_strlit("5"); }
        assert("5"@ =~= seq![digit_char_spec(d as int)]);
        "5"
    } else if d == 6 {
        proof { reveal_strlit("6"); }
        assert("6"@ =~= seq![digit_char_spec(d as int)]);
        "6"
    } else if d == 7 {
        proof { reveal_strlit("7"); }
        assert("7"@ =~= seq![digit_char_spec(d as int)]);
        "7"
    } else if d == 8 {
        proof { reveal_strlit("8"); }
        assert("8"@ =~= seq![digit_char_spec(d as int)]);
        "8"
    } else {
        proof { reveal_strlit("9"); }
        assert("9"@ =~= seq![digit_char_spec(d as int)]);
        "9"
    }
}

/// A number below 100, zero-padded to two digit characters.
pub open spec fn two_digit_seq(n: int) -> Seq<char> {
    seq![digit_char_spec(n / 10), digit_char_spec(n % 10)]
}

/// How minutes since midnight print on the clock: `HH:MM`, zero-padded.
pub open spec fn hhmm_seq(minutes: int) -> Seq<char> {
    two_digit_seq(minutes / 60) + seq![':'] + two_digit_seq(minutes % 60)
}

/// Formats minutes since midnight as a `HH:MM` clock string.
pub fn format_hhmm(minutes: u32) -> (r: String)
    requires
        minutes < MINUTES_PER_DAY,
    ensures
        r@ == hhmm_seq(minutes as int),
{
    let h = minutes / 60;
    let m = minutes % 60;
    let mut s = String::new();
    s.append(digit_str(h / 10));
    s.append(digit_str(h % 10));
    proof { reveal_strlit(":"); }
    assert(":"@ =~= seq![':']);
    s.append(":");
    s.append(digit_str(m / 10));
    s.append(digit_str(m % 10));
    proof {
        assert(s@ =~= hhmm_seq(minutes as int));
    }
    s
}

/// Round trip between the clock text and the minutes it denotes: formatting
/// any valid time of day and parsing it back yields the same instant.
pub proof fn lemma_hhmm_round_trip(minutes: u32)
    requires
        minutes < MINUTES_PER_DAY,
    ensures
        parse_hhmm_spec(hhmm_seq(minutes as int)) == Some(minutes),
{
    let s = hhmm_seq(minutes as int);
    assert(s.len() == 5);
    assert(digit_val_spec(digit_char_spec((minutes as int / 60) / 10)) is Some);
}

} // verus!
