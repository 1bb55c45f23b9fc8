//! Times as they stand in messages, and windows of time that reach back from now.
use vstd::prelude::*;
use crate::bus::{iso_millis, parse_iso_ms, written_time_is_read};
use crate::clock::{
    iso_text, late_years, read_rfc3339, rfc3339_seconds, utc_millis, valid_moment, Moment,
};
use crate::json::{Json, JsonView};
use crate::num::{dec, dec_round_trip, digit_char, read_u64, uint_of};

verus! {

/// The seconds that a text gives: a number as it is, else those of a time with an offset
/// that was read in it, else those of a date and a time of the day, by universal time.
pub open spec fn text_seconds(s: Seq<char>, iso: Option<i64>) -> Option<u64> {
    match uint_of(s, false, u64::MAX as nat) {
        Some(n) => Some(n as u64),
        None => match iso {
            Some(t) => Some(t as u64),
            None => match iso_millis(s) {
                Ok(ms) => Some((ms / 1000) as u64),
                Err(_) => None,
            },
        },
    }
}

/// The seconds that a text gives, given the time with an offset that was read in it.
pub fn seconds_from(s: &str, iso: Option<i64>) -> (r: Option<u64>)
    ensures
        r == text_seconds(s@, iso),
{
    match read_u64(s) {
        Some(n) => Some(n),
        None => match iso {
            Some(t) => Some(t as u64),
            None => match parse_iso_ms(s) {
                Ok(ms) => Some(ms / 1000),
                Err(_) => None,
            },
        },
    }
}

/// The seconds that a text gives.
pub fn seconds_in_text(s: &str) -> (r: Option<u64>)
    ensures
        r == text_seconds(s@, rfc3339_seconds(s@)),
{
    seconds_from(s, read_rfc3339(s))
}

/// The seconds that a value gives, as a number or as a text.
pub open spec fn seconds_in(v: JsonView) -> Option<u64> {
    match v {
        JsonView::Int(n) => if 0 <= n <= u64::MAX {
            Some(n as u64)
        } else {
            None
        },
        JsonView::Str(s) => text_seconds(s, rfc3339_seconds(s)),
        _ => None,
    }
}

/// The seconds that a value gives, as a number or as a text.
pub fn seconds_of(v: &Json) -> (r: Option<u64>)
    ensures
        r == seconds_in(v@),
{
    match v {
        Json::Uint(n) => Some(*n),
        Json::Int(n) => if *n >= 0 {
            Some(*n as u64)
        } else {
            None
        },
        Json::Str(s) => seconds_in_text(s.as_str()),
        _ => None,
    }
}

/// The start of a window of some hours, in seconds.
pub open spec fn since(hours: u64, now: u64) -> int {
    if hours * 3600 <= now {
        now - hours * 3600
    } else {
        0
    }
}

/// The start of a window of some hours, in seconds.
pub fn window_start(hours: u64, now: u64) -> (r: u64)
    ensures
        r == since(hours, now),
{
    let wide: u128 = hours as u128 * 3600;
    if wide <= now as u128 {
        now - wide as u64
    } else {
        0
    }
}

/// A time lies in a window; one that is not known is not held to be older.
pub open spec fn recent(t: Option<u64>, from: int) -> bool {
    match t {
        Some(x) => x >= from,
        None => true,
    }
}

/// Whether a time lies in a window.
pub fn is_recent(t: Option<u64>, from: u64) -> (r: bool)
    ensures
        r == recent(t, from as int),
{
    match t {
        Some(x) => x >= from,
        None => true,
    }
}

// ---------------------------------------------------------------- laws

/// A number written out gives itself as seconds, and as a number in a value too.
pub proof fn numbers_are_seconds(n: nat, iso: Option<i64>)
    requires
        n <= u64::MAX,
    ensures
        text_seconds(dec(n), iso) == Some(n as u64),
        seconds_in(JsonView::Int(n as int)) == Some(n as u64),
{
    dec_round_trip(n, u64::MAX as nat);
}

proof fn time_is_no_number(t: Moment)
    requires
        valid_moment(t),
        1970 <= t.year < 10000,
    ensures
        uint_of(iso_text(t), false, u64::MAX as nat) is None,
{
    reveal_strlit("-");
    let s = iso_text(t);
    assert(s[4] == '-');
    assert(s.len() > 5);
    assert(s[0] == digit_char((t.year / 1000) as nat));
}

/// A time that is written out gives the whole seconds from the start of 1970 to it; one
/// that was read with an offset gives what was read.
pub proof fn times_are_seconds(t: Moment, read: i64)
    requires
        valid_moment(t),
        1970 <= t.year < 10000,
    ensures
        text_seconds(iso_text(t), None) == Some(
            (utc_millis(t.year, t.month, t.day, t.hour, t.minute, t.second) / 1000) as u64,
        ),
        text_seconds(iso_text(t), Some(read)) == Some(read as u64),
{
    time_is_no_number(t);
    written_time_is_read(t);
    late_years(t);
}

/// A window of some hours reaches back so many times 3600 seconds, as far as there are
/// seconds; a time lies in it exactly where it is no earlier than its start.
pub proof fn windows_reach_back(hours: u64, now: u64, t: u64)
    ensures
        recent(Some(t), since(hours, now)) <==> t + hours * 3600 >= now,
{
}

} // verus!
