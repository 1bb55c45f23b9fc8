//! Clocks and dates.
use vstd::prelude::*;
use crate::num::{dec, digit_char, digit_value, int_of, unplus, value};

verus! {

// ---------------------------------------------------------------- the clock

/// `SystemTime::elapsed` of the start of 1970: the seconds since then and the
/// nanoseconds beyond them, unless the clock stands before it.
#[verifier::external_body]
fn epoch_elapsed() -> (r: Option<(u64, u32)>)
    ensures
        in_a_second(r),
{
    std::time::UNIX_EPOCH.elapsed().ok().map(|d| (d.as_secs(), d.subsec_nanos()))
}

/// The nanoseconds fill less than a second.
pub open spec fn in_a_second(d: Option<(u64, u32)>) -> bool {
    match d {
        Some((_, n)) => n < 1_000_000_000,
        None => true,
    }
}

/// Milliseconds as 64 bits hold them; zero for a clock before 1970.
pub open spec fn millis(d: Option<(u64, u32)>) -> nat {
    match d {
        Some((s, n)) => ((s * 1000 + n / 1_000_000) % 0x1_0000_0000_0000_0000) as nat,
        None => 0,
    }
}

/// Seconds; zero for a clock before 1970.
pub open spec fn seconds(d: Option<(u64, u32)>) -> nat {
    match d {
        Some((s, _)) => s as nat,
        None => 0,
    }
}

/// The milliseconds of a time since the start of 1970.
pub fn millis_of(d: Option<(u64, u32)>) -> (r: u64)
    ensures
        r == millis(d),
{
    match d {
        Some((s, n)) => ((s as u128 * 1000 + (n / 1_000_000) as u128) % 0x1_0000_0000_0000_0000)
            as u64,
        None => 0,
    }
}

/// The milliseconds since the start of 1970.
pub fn now_ms() -> (r: u64)
    ensures
        exists|d: Option<(u64, u32)>| #[trigger] in_a_second(d) && r == millis(d),
{
    let d = epoch_elapsed();
    millis_of(d)
}

/// The seconds since the start of 1970.
pub fn now_ts() -> (r: u64)
    ensures
        exists|d: Option<(u64, u32)>| #[trigger] in_a_second(d) && r == seconds(d),
{
    let d = epoch_elapsed();
    match d {
        Some((s, _)) => s,
        None => 0,
    }
}

/// A moment of a calendar.
pub ghost struct Moment {
    pub year: int,
    pub month: int,
    pub day: int,
    pub hour: int,
    pub minute: int,
    pub second: int,
    pub milli: int,
}

/// A moment that there is.
pub open spec fn valid_moment(t: Moment) -> bool {
    valid_date(t.year, t.month, t.day) && valid_time(t.hour, t.minute, t.second) && 0 <= t.milli
        < 1000
}

/// A number below a hundred in two digits.
pub open spec fn two(n: int) -> Seq<char> {
    seq![digit_char((n / 10) as nat), digit_char((n % 10) as nat)]
}

/// A number in four digits, or in as many as it takes.
pub open spec fn four(n: int) -> Seq<char> {
    if n < 10000 {
        two(n / 100) + two(n % 100)
    } else {
        dec(n as nat)
    }
}

/// A year in four digits; one that these do not hold has a sign.
pub open spec fn year_text(y: int) -> Seq<char> {
    if y < 0 {
        "-"@ + four(-y)
    } else if y < 10000 {
        four(y)
    } else {
        "+"@ + four(y)
    }
}

/// A date, as in `2026-08-27`.
pub open spec fn date_text(t: Moment) -> Seq<char> {
    year_text(t.year) + "-"@ + two(t.month) + "-"@ + two(t.day)
}

/// A time of the day, as in `23:15:00`.
pub open spec fn time_text(t: Moment) -> Seq<char> {
    two(t.hour) + ":"@ + two(t.minute) + ":"@ + two(t.second)
}

/// A moment to the millisecond, as in `2026-08-27T23:15:00.123Z`.
pub open spec fn iso_text(t: Moment) -> Seq<char> {
    date_text(t) + "T"@ + time_text(t) + "."@ + seq![digit_char((t.milli / 100) as nat)] + two(
        t.milli % 100,
    ) + "Z"@
}

/// A moment to the second for use in a name, as in `20260827-231500`.
pub open spec fn compact_text(t: Moment) -> Seq<char> {
    year_text(t.year) + two(t.month) + two(t.day) + "-"@ + two(t.hour) + two(t.minute) + two(
        t.second,
    )
}

/// The formats in which the local time is written.
pub open spec fn known_format(f: Seq<char>) -> bool {
    ||| f == "%Y-%m-%d"@
    ||| f == "%Y-%m-%d %H:%M"@
    ||| f == "%Y-%m-%d %H:%M:%S"@
    ||| f == "%Y-%m-%dT%H:%M:%S"@
    ||| f == "%Y-%m-%dT%H:%M:%S%.3fZ"@
    ||| f == "%Y%m%d-%H%M%S"@
}

/// A moment in one of the formats.
pub open spec fn written(f: Seq<char>, t: Moment) -> Seq<char> {
    if f == "%Y-%m-%d"@ {
        date_text(t)
    } else if f == "%Y-%m-%d %H:%M"@ {
        date_text(t) + " "@ + two(t.hour) + ":"@ + two(t.minute)
    } else if f == "%Y-%m-%d %H:%M:%S"@ {
        date_text(t) + " "@ + time_text(t)
    } else if f == "%Y-%m-%dT%H:%M:%S"@ {
        date_text(t) + "T"@ + time_text(t)
    } else if f == "%Y-%m-%dT%H:%M:%S%.3fZ"@ {
        iso_text(t)
    } else {
        compact_text(t)
    }
}

/// The text is that of some moment in one of the formats.
pub open spec fn of_some_moment(s: Seq<char>, f: Seq<char>) -> bool {
    exists|t: Moment| #[trigger] valid_moment(t) && s == written(f, t)
}

/// `chrono::Local::now` written by its `format`: the text is that of some moment. Which
/// moment it is, and in which zone, is left open.
#[verifier::external_body]
fn local_time(f: &str) -> (r: String)
    requires
        known_format(f@),
    ensures
        of_some_moment(r@, f@),
{
    chrono::Local::now().format(f).to_string()
}

/// `chrono::Utc::now` written by its `format`: the text is that of some moment, by
/// universal time. Which moment it is, is left open.
#[verifier::external_body]
fn universal_time(f: &str) -> (r: String)
    requires
        known_format(f@),
    ensures
        of_some_moment(r@, f@),
{
    chrono::Utc::now().format(f).to_string()
}

proof fn formats_differ()
    ensures
        "%Y-%m-%d"@.len() == 8,
        "%Y-%m-%d %H:%M"@.len() == 14,
        "%Y-%m-%d %H:%M:%S"@.len() == 17,
        "%Y-%m-%dT%H:%M:%S"@.len() == 17,
        "%Y-%m-%d %H:%M:%S"@ != "%Y-%m-%dT%H:%M:%S"@,
        "%Y-%m-%dT%H:%M:%S%.3fZ"@.len() == 22,
        "%Y%m%d-%H%M%S"@.len() == 13,
{
    reveal_strlit("%Y-%m-%d");
    reveal_strlit("%Y-%m-%d %H:%M");
    reveal_strlit("%Y-%m-%d %H:%M:%S");
    reveal_strlit("%Y-%m-%dT%H:%M:%S");
    reveal_strlit("%Y-%m-%dT%H:%M:%S%.3fZ");
    reveal_strlit("%Y%m%d-%H%M%S");
    assert("%Y-%m-%d %H:%M:%S"@[8] == ' ');
    assert("%Y-%m-%dT%H:%M:%S"@[8] == 'T');
}

/// The local date.
pub fn today() -> (r: String)
    ensures
        exists|t: Moment| #[trigger] valid_moment(t) && r@ == date_text(t),
{
    local_time("%Y-%m-%d")
}

/// The local time to the minute.
pub fn now_minute() -> (r: String)
    ensures
        exists|t: Moment| #[trigger]
            valid_moment(t) && r@ == date_text(t) + " "@ + two(t.hour) + ":"@ + two(t.minute),
{
    proof {
        formats_differ();
    }
    local_time("%Y-%m-%d %H:%M")
}

/// The local time to the second.
pub fn now() -> (r: String)
    ensures
        exists|t: Moment| #[trigger]
            valid_moment(t) && r@ == date_text(t) + " "@ + time_text(t),
{
    proof {
        formats_differ();
    }
    local_time("%Y-%m-%d %H:%M:%S")
}

/// The local time to the second, with a `T` before the hour.
pub fn now_local() -> (r: String)
    ensures
        exists|t: Moment| #[trigger]
            valid_moment(t) && r@ == date_text(t) + "T"@ + time_text(t),
{
    proof {
        formats_differ();
    }
    local_time("%Y-%m-%dT%H:%M:%S")
}

/// The universal time to the millisecond, with a `T` before the hour and a `Z` at the
/// end.
pub fn now_iso() -> (r: String)
    ensures
        exists|t: Moment| #[trigger] valid_moment(t) && r@ == iso_text(t),
{
    proof {
        formats_differ();
    }
    universal_time("%Y-%m-%dT%H:%M:%S%.3fZ")
}

/// The local time to the second, for use in a name.
pub fn now_compact() -> (r: String)
    ensures
        exists|t: Moment| #[trigger] valid_moment(t) && r@ == compact_text(t),
{
    proof {
        formats_differ();
    }
    local_time("%Y%m%d-%H%M%S")
}

proof fn digits_are_plain()
    ensures
        forall|d: nat|
            d < 10 ==> '0' <= (#[trigger] digit_char(d)) <= '9' && digit_value(digit_char(d)) == d,
{
}

/// Two digits are read as the number that they were written from.
pub proof fn two_reads_back(n: int)
    requires
        0 <= n < 100,
    ensures
        int_of(two(n)) == Some(n),
        two(n).len() == 2,
        forall|i: int| 0 <= i < 2 ==> '0' <= #[trigger] two(n)[i] <= '9',
{
    digits_are_plain();
    let s = two(n);
    assert(s.drop_last() =~= seq![s[0]]);
    assert(s.drop_last().drop_last() =~= seq![]);
    reveal_with_fuel(value, 3);
    assert(value(s, false) == n);
    assert(unplus(s) == s);
}

/// Four digits are read as the number that they were written from.
pub proof fn four_reads_back(n: int)
    requires
        0 <= n < 10000,
    ensures
        int_of(four(n)) == Some(n),
        four(n).len() == 4,
        forall|i: int| 0 <= i < 4 ==> '0' <= #[trigger] four(n)[i] <= '9',
{
    digits_are_plain();
    two_reads_back(n / 100);
    two_reads_back(n % 100);
    let s = four(n);
    let (a, b) = (two(n / 100), two(n % 100));
    assert(s[0] == a[0] && s[1] == a[1] && s[2] == b[0] && s[3] == b[1]);
    assert(s.drop_last() =~= seq![s[0], s[1], s[2]]);
    assert(s.drop_last().drop_last() =~= seq![s[0], s[1]]);
    assert(s.drop_last().drop_last().drop_last() =~= seq![s[0]]);
    assert(s.drop_last().drop_last().drop_last().drop_last() =~= seq![]);
    reveal_with_fuel(value, 5);
    assert(value(s, false) == n);
    assert(unplus(s) == s);
}

/// `chrono::Local::now` by its `timestamp_millis`. Which time it is, is left open.
#[verifier::external_body]
fn local_millis() -> (r: i64) {
    chrono::Local::now().timestamp_millis()
}

/// The milliseconds since the start of 1970, negative before it.
pub fn now_signed_ms() -> (r: i64) {
    local_millis()
}

// ---------------------------------------------------------------- dates

/// A leap year of the Gregorian calendar.
pub open spec fn leap(y: int) -> bool {
    y % 4 == 0 && (y % 100 != 0 || y % 400 == 0)
}

/// The days of a month; none where there is no such month.
pub open spec fn month_days(y: int, m: int) -> int {
    if m == 2 {
        if leap(y) {
            29
        } else {
            28
        }
    } else if m == 4 || m == 6 || m == 9 || m == 11 {
        30
    } else if 1 <= m <= 12 {
        31
    } else {
        0
    }
}

/// The days of a year before the month `m`.
pub open spec fn days_before(y: int, m: int) -> int
    decreases m,
{
    if m <= 1 {
        0
    } else {
        days_before(y, m - 1) + month_days(y, m - 1)
    }
}

/// A date of the years that `chrono` counts.
pub open spec fn valid_date(y: int, m: int, d: int) -> bool {
    -262143 <= y <= 262142 && 1 <= d <= month_days(y, m)
}

/// The number of a day; the first day of the year 1 is day 1.
pub open spec fn day_number(y: int, m: int, d: int) -> int {
    365 * (y - 1) + (y - 1) / 4 - (y - 1) / 100 + (y - 1) / 400 + days_before(y, m) + d
}

/// The number of the first day of 1970.
pub open spec fn epoch_day() -> int {
    719163
}

/// A time of the day.
pub open spec fn valid_time(h: int, mi: int, s: int) -> bool {
    0 <= h < 24 && 0 <= mi < 60 && 0 <= s < 60
}

/// The milliseconds from the start of 1970 to a time, by universal time.
pub open spec fn utc_millis(y: int, m: int, d: int, h: int, mi: int, s: int) -> int {
    ((day_number(y, m, d) - epoch_day()) * 86400 + h * 3600 + mi * 60 + s) * 1000
}

/// From 1970 to the year 9999 the milliseconds count up from zero.
pub proof fn late_years(t: Moment)
    requires
        valid_moment(t),
        1970 <= t.year < 10000,
    ensures
        0 <= utc_millis(t.year, t.month, t.day, t.hour, t.minute, t.second) < 0x8000_0000_0000_0000,
{
    let x = t.year - 1;
    assert(0 <= days_before(t.year, t.month) <= 366) by {
        reveal_with_fuel(days_before, 13);
    }
    assert(365 * x + x / 4 - x / 100 + x / 400 >= 719162);
    assert(day_number(t.year, t.month, t.day) >= epoch_day());
    assert(day_number(t.year, t.month, t.day) <= 4_000_000);
}

/// `NaiveDate::from_ymd_opt`, the date taken by its `num_days_from_ce`: the number
/// of a day that exists in the Gregorian calendar, within the years that the type
/// covers.
#[verifier::external_body]
fn ce_day(y: i32, m: u32, d: u32) -> (r: Option<i32>)
    ensures
        match r {
            Some(n) => valid_date(y as int, m as int, d as int) && n == day_number(
                y as int,
                m as int,
                d as int,
            ),
            None => !valid_date(y as int, m as int, d as int),
        },
{
    chrono::NaiveDate::from_ymd_opt(y, m, d).map(|x| chrono::Datelike::num_days_from_ce(&x))
}

/// `NaiveTime::from_hms_opt`, the time taken by its `num_seconds_from_midnight`: the
/// seconds of a time below 24 hours, 60 minutes and 60 seconds.
#[verifier::external_body]
fn day_seconds(h: u32, mi: u32, s: u32) -> (r: Option<u32>)
    ensures
        match r {
            Some(n) => valid_time(h as int, mi as int, s as int) && n == h * 3600 + mi * 60 + s,
            None => !valid_time(h as int, mi as int, s as int),
        },
{
    chrono::NaiveTime::from_hms_opt(h, mi, s).map(|x| chrono::Timelike::num_seconds_from_midnight(&x))
}

/// The milliseconds from the start of 1970 to a time, by universal time, if the
/// time exists.
pub fn utc_millis_of(y: i32, m: u32, d: u32, h: u32, mi: u32, s: u32) -> (r: Option<i64>)
    ensures
        match r {
            Some(n) => valid_date(y as int, m as int, d as int) && valid_time(
                h as int,
                mi as int,
                s as int,
            ) && n == utc_millis(y as int, m as int, d as int, h as int, mi as int, s as int),
            None => !valid_date(y as int, m as int, d as int) || !valid_time(
                h as int,
                mi as int,
                s as int,
            ),
        },
{
    match (ce_day(y, m, d), day_seconds(h, mi, s)) {
        (Some(n), Some(t)) => Some(((n as i64 - 719163) * 86400 + t as i64) * 1000),
        _ => None,
    }
}

/// The seconds since the start of 1970 that `DateTime::parse_from_rfc3339` reads in
/// a text, if it reads a time.
pub uninterp spec fn rfc3339_seconds(s: Seq<char>) -> Option<i64>;

/// `DateTime::parse_from_rfc3339`, the time taken by its `timestamp`.
#[verifier::external_body]
pub(crate) fn read_rfc3339(s: &str) -> (r: Option<i64>)
    ensures
        r == rfc3339_seconds(s@),
{
    chrono::DateTime::parse_from_rfc3339(s).ok().map(|t| t.timestamp())
}

// ---------------------------------------------------------------- the calendar

/// The time begins with the year 1970, every day of a month is followed by the next one,
/// every month by the next one and every year by the next one, without a gap.
pub proof fn days_follow_one_another(y: int, m: int, d: int)
    requires
        1 <= m <= 12,
    ensures
        utc_millis(1970, 1, 1, 0, 0, 0) == 0,
        utc_millis(y, m, d + 1, 0, 0, 0) == utc_millis(y, m, d, 0, 0, 0) + 24 * 60 * 60 * 1000,
        m < 12 ==> day_number(y, m + 1, 1) == day_number(y, m, month_days(y, m)) + 1,
        day_number(y + 1, 1, 1) == day_number(y, 12, 31) + 1,
{
    reveal_with_fuel(days_before, 13);
    let x = y - 1;
    leap_step(y);
    assert(days_before(y, 12) == if leap(y) {
        335int
    } else {
        334
    });
}

proof fn leap_step(y: int)
    ensures
        y / 4 - y / 100 + y / 400 == (y - 1) / 4 - (y - 1) / 100 + (y - 1) / 400 + if leap(y) {
            1int
        } else {
            0
        },
{
}

/// February has 29 days in every fourth year, but not in every hundredth, and yet in every
/// four hundredth; the other months have 30 or 31.
pub proof fn months_have_their_days(y: int, m: int)
    requires
        1 <= m <= 12,
    ensures
        28 <= month_days(y, m) <= 31,
        month_days(4 * y, 2) == 29 || y % 25 == 0,
        month_days(100 * y, 2) == 29 <==> y % 4 == 0,
        y % 4 != 0 ==> month_days(y, 2) == 28,
        month_days(y, 1) == 31 && month_days(y, 3) == 31 && month_days(y, 5) == 31 && month_days(
            y,
            7,
        ) == 31 && month_days(y, 8) == 31 && month_days(y, 10) == 31 && month_days(y, 12) == 31,
        month_days(y, 4) == 30 && month_days(y, 6) == 30 && month_days(y, 9) == 30 && month_days(
            y,
            11,
        ) == 30,
{
}

/// An hour has 60 minutes, a minute 60 seconds, a second a thousand milliseconds.
pub proof fn times_of_the_day_add_up(y: int, m: int, d: int, h: int, mi: int, s: int)
    ensures
        utc_millis(y, m, d, h + 1, mi, s) == utc_millis(y, m, d, h, mi, s) + 60 * 60 * 1000,
        utc_millis(y, m, d, h, mi + 1, s) == utc_millis(y, m, d, h, mi, s) + 60 * 1000,
        utc_millis(y, m, d, h, mi, s + 1) == utc_millis(y, m, d, h, mi, s) + 1000,
{
}

/// The milliseconds of a clock are a thousand for each second and those of the part of one
/// that has begun; a clock before 1970 gives none.
pub proof fn clocks_are_read(s: u64, n: u32)
    requires
        s * 1000 + 1000 <= u64::MAX,
        n < 1_000_000_000,
    ensures
        millis(Some((s, n))) >= s * 1000,
        (millis(Some((s, n))) - s * 1000) * 1_000_000 <= n,
        n < (millis(Some((s, n))) - s * 1000 + 1) * 1_000_000,
        seconds(Some((s, n))) == s,
        millis(None) == 0,
        seconds(None) == 0,
{
}

/// A moment in a name is fifteen characters long, and the year, the month, the day, the hour,
/// the minute and the second stand in it at their places.
pub proof fn moments_stand_in_names(t: Moment)
    requires
        valid_moment(t),
        0 <= t.year < 10000,
    ensures
        compact_text(t).len() == 15,
        int_of(compact_text(t).subrange(0, 4)) == Some(t.year),
        int_of(compact_text(t).subrange(4, 6)) == Some(t.month),
        int_of(compact_text(t).subrange(6, 8)) == Some(t.day),
        compact_text(t)[8] == '-',
        int_of(compact_text(t).subrange(9, 11)) == Some(t.hour),
        int_of(compact_text(t).subrange(11, 13)) == Some(t.minute),
        int_of(compact_text(t).subrange(13, 15)) == Some(t.second),
{
    reveal_strlit("-");
    four_reads_back(t.year);
    two_reads_back(t.month);
    two_reads_back(t.day);
    two_reads_back(t.hour);
    two_reads_back(t.minute);
    two_reads_back(t.second);
    let s = compact_text(t);
    assert(s.subrange(0, 4) =~= four(t.year));
    assert(s.subrange(4, 6) =~= two(t.month));
    assert(s.subrange(6, 8) =~= two(t.day));
    assert(s.subrange(9, 11) =~= two(t.hour));
    assert(s.subrange(11, 13) =~= two(t.minute));
    assert(s.subrange(13, 15) =~= two(t.second));
}

} // verus!
