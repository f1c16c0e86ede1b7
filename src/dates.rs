use chrono::{Datelike, Timelike};
use vstd::prelude::*;
use crate::text::{truncate, truncated};

verus! {

/// The calendar date and wall-clock time that a timestamp states, in its own offset.
#[derive(Clone, Copy, Debug, PartialEq, Eq, Structural)]
pub struct DateStamp {
    pub year: i32,
    pub month: u32,
    pub day: u32,
    pub hour: u32,
    pub minute: u32,
}

/// What chrono reads from an RFC 3339 timestamp; `None` where it refuses the text.
pub uninterp spec fn rfc3339_of(s: Seq<char>) -> Option<DateStamp>;

/// Relies on chrono's `DateTime::parse_from_rfc3339`, read back through its
/// `Datelike` and `Timelike` accessors: the date and time as the text states them
/// (four-digit year, month 1-12, day 1-31, hour 0-23, minute 0-59).
#[verifier::external_body]
fn parse_rfc3339(s: &str) -> (r: Option<DateStamp>)
    ensures
        r == rfc3339_of(s@),
        r matches Some(d) ==> 0 <= d.year <= 9999 && 1 <= d.month <= 12 && 1 <= d.day <= 31
            && d.hour <= 23 && d.minute <= 59,
{
    chrono::DateTime::parse_from_rfc3339(s).ok().map(
        |dt| DateStamp {
            year: dt.year(),
            month: dt.month(),
            day: dt.day(),
            hour: dt.hour(),
            minute: dt.minute(),
        },
    )
}

/// `s` with every `Z` written as `+00:00`.
pub open spec fn zulu_as_offset(s: Seq<char>) -> Seq<char>
    decreases s.len(),
{
    if s.len() == 0 {
        Seq::empty()
    } else {
        (if s[0] == 'Z' {
            seq!['+', '0', '0', ':', '0', '0']
        } else {
            seq![s[0]]
        }) + zulu_as_offset(s.drop_first())
    }
}

/// Relies on `str::replace`: every `Z` is replaced by `+00:00`.
#[verifier::external_body]
fn replace_zulu(s: &str) -> (r: String)
    ensures
        r@ == zulu_as_offset(s@),
{
    s.replace('Z', "+00:00")
}

pub open spec fn digit_char(d: int) -> char {
    if d == 0 {
        '0'
    } else if d == 1 {
        '1'
    } else if d == 2 {
        '2'
    } else if d == 3 {
        '3'
    } else if d == 4 {
        '4'
    } else if d == 5 {
        '5'
    } else if d == 6 {
        '6'
    } else if d == 7 {
        '7'
    } else if d == 8 {
        '8'
    } else {
        '9'
    }
}

/// `n` in decimal with exactly `width` digits (its lowest ones).
pub open spec fn padded(n: int, width: nat) -> Seq<char>
    decreases width,
{
    if width == 0 {
        Seq::empty()
    } else {
        padded(n / 10, (width - 1) as nat).push(digit_char(n % 10))
    }
}

/// A date and time as `YYYY-MM-DD HH:MM`.
pub open spec fn stamp_text(d: DateStamp) -> Seq<char> {
    padded(d.year as int, 4) + seq!['-'] + padded(d.month as int, 2) + seq!['-'] + padded(
        d.day as int,
        2,
    ) + seq![' '] + padded(d.hour as int, 2) + seq![':'] + padded(d.minute as int, 2)
}

fn digit_text(d: u32) -> (r: &'static str)
    requires
        d < 10,
    ensures
        r@ == seq![digit_char(d as int)],
{
    proof {
        reveal_strlit("0");
        reveal_strlit("1");
        reveal_strlit("2");
        reveal_strlit("3");
        reveal_strlit("4");
        reveal_strlit("5");
        reveal_strlit("6");
        reveal_strlit("7");
        reveal_strlit("8");
        reveal_strlit("9");
    }
    match d {
        0 => "0",
        1 => "1",
        2 => "2",
        3 => "3",
        4 => "4",
        5 => "5",
        6 => "6",
        7 => "7",
        8 => "8",
        _ => "9",
    }
}

fn append_padded(out: &mut String, n: u32, width: u32)
    requires
        width <= 4,
    ensures
        final(out)@ == old(out)@ + padded(n as int, width as nat),
    decreases width,
{
    if width == 0 {
        assert(old(out)@ + Seq::<char>::empty() =~= old(out)@);
        return;
    }
    append_padded(out, n / 10, width - 1);
    out.append(digit_text(n % 10));
    assert(padded(n as int, width as nat) == padded((n / 10) as int, (width - 1) as nat).push(
        digit_char((n % 10) as int),
    ));
    assert(final(out)@ =~= old(out)@ + padded(n as int, width as nat));
}

fn append_literal(out: &mut String, s: &str)
    ensures
        final(out)@ == old(out)@ + s@,
{
    out.append(s);
}

/// Writes a date and time as `YYYY-MM-DD HH:MM`.
pub fn format_stamp(d: DateStamp) -> (r: String)
    requires
        0 <= d.year,
    ensures
        r@ == stamp_text(d),
{
    proof {
        reveal_strlit("-");
        reveal_strlit(" ");
        reveal_strlit(":");
    }
    let mut out = String::new();
    append_padded(&mut out, d.year as u32, 4);
    append_literal(&mut out, "-");
    append_padded(&mut out, d.month, 2);
    append_literal(&mut out, "-");
    append_padded(&mut out, d.day, 2);
    append_literal(&mut out, " ");
    append_padded(&mut out, d.hour, 2);
    append_literal(&mut out, ":");
    append_padded(&mut out, d.minute, 2);
    assert(out@ =~= stamp_text(d));
    out
}

/// How a timestamp is shown: `unknown` when empty; its date and time when it is
/// RFC 3339, read as it stands or with each `Z` written `+00:00`; else its first
/// sixteen characters.
pub open spec fn date_display(s: Seq<char>) -> Seq<char> {
    if s.len() == 0 {
        "unknown"@
    } else if rfc3339_of(s) is Some {
        stamp_text(rfc3339_of(s)->0)
    } else if rfc3339_of(zulu_as_offset(s)) is Some {
        stamp_text(rfc3339_of(zulu_as_offset(s))->0)
    } else {
        truncated(s, 16)
    }
}

/// Shows a timestamp as `YYYY-MM-DD HH:MM` where it can be read.
pub fn format_date(iso_str: &str) -> (r: String)
    ensures
        r@ == date_display(iso_str@),
{
    if iso_str.is_empty() {
        return String::from_str("unknown");
    }
    match parse_rfc3339(iso_str) {
        Some(d) => {
            return format_stamp(d);
        },
        None => {},
    }
    let normalized = replace_zulu(iso_str);
    match parse_rfc3339(normalized.as_str()) {
        Some(d) => {
            return format_stamp(d);
        },
        None => {},
    }
    truncate(iso_str, 16)
}

} // verus!
