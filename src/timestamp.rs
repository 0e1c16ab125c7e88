//! Reconstruction of a full local timestamp from a line's month, day and time
//! and a year supplied by the caller.

use vstd::prelude::*;
use chrono::{Local, MappedLocalTime, NaiveDate, NaiveDateTime, NaiveTime};
use crate::text::chars_of;

verus! {

/// Month, day and time of day as written in a line.
#[derive(Clone, Copy, Debug, PartialEq, Eq, Structural)]
pub struct TimeFields {
    pub month: u32,
    pub day: u32,
    pub hour: u32,
    pub minute: u32,
    pub second: u32,
    pub nanosecond: u32,
}

/// An absolute local timestamp: a calendar date, a time of day and the offset
/// from UTC, in seconds east, that the local time zone had at that moment.
#[derive(Clone, Copy, Debug, PartialEq, Eq, Structural)]
pub struct Timestamp {
    pub year: i32,
    pub month: u32,
    pub day: u32,
    pub hour: u32,
    pub minute: u32,
    pub second: u32,
    pub nanosecond: u32,
    pub offset_seconds: i32,
}

/// Why a timestamp could not be reconstructed.
#[derive(Clone, Copy, Debug, PartialEq, Eq, Structural)]
pub enum TimestampError {
    /// The text is not of the shape `MM-DD|HH:MM:SS` with an optional fraction.
    Malformed,
    /// The numbers do not name a calendar date and a time of day.
    InvalidDate,
    /// The local time zone gives the moment two offsets (the clock turned back).
    AmbiguousLocalTime,
    /// The local time zone skips the moment (the clock jumped forward).
    NonexistentLocalTime,
}

/// How the local time zone maps a local date and time.
#[derive(Clone, Copy, Debug, PartialEq, Eq, Structural)]
pub enum LocalResolution {
    /// To exactly one offset, in seconds east of UTC.
    Single(i32),
    Ambiguous,
    Nonexistent,
}

pub open spec fn is_digit(c: char) -> bool {
    '0' <= c && c <= '9'
}

pub open spec fn digit_value(c: char) -> nat {
    (c as u32 - '0' as u32) as nat
}

/// The number written by the two digits at `i` and `i + 1`.
pub open spec fn two_digits(s: Seq<char>, i: int) -> nat {
    10 * digit_value(s[i]) + digit_value(s[i + 1])
}

/// The number that a sequence of decimal digits writes.
pub open spec fn digits_value(ds: Seq<char>) -> nat
    decreases ds.len(),
{
    if ds.len() == 0 {
        0
    } else {
        digits_value(ds.drop_last()) * 10 + digit_value(ds.last())
    }
}

pub open spec fn pow10(n: nat) -> nat
    decreases n,
{
    if n == 0 {
        1
    } else {
        10 * pow10((n - 1) as nat)
    }
}

/// The first nine digits of a fraction, filled up with zeros.
pub open spec fn nine_digits(ds: Seq<char>) -> Seq<char> {
    Seq::new(9, |i: int| if i < ds.len() { ds[i] } else { '0' })
}

/// The nanoseconds that the digits after a decimal point stand for; digits past
/// the ninth are ignored.
pub open spec fn fraction_nanos(ds: Seq<char>) -> nat {
    digits_value(nine_digits(ds))
}

/// The text is `MM-DD|HH:MM:SS`, two digits each, optionally followed by `.` and
/// one or more digits.
pub open spec fn raw_shape(s: Seq<char>) -> bool {
    &&& s.len() >= 14
    &&& is_digit(s[0]) && is_digit(s[1]) && s[2] == '-'
    &&& is_digit(s[3]) && is_digit(s[4]) && s[5] == '|'
    &&& is_digit(s[6]) && is_digit(s[7]) && s[8] == ':'
    &&& is_digit(s[9]) && is_digit(s[10]) && s[11] == ':'
    &&& is_digit(s[12]) && is_digit(s[13])
    &&& s.len() > 14 ==> (s[14] == '.' && s.len() > 15 && forall|i: int|
        15 <= i < s.len() ==> is_digit(#[trigger] s[i]))
}

/// The fields that a timestamp text writes, if it has the expected shape.
pub open spec fn parse_raw_spec(s: Seq<char>) -> Option<TimeFields> {
    if raw_shape(s) {
        Some(
            TimeFields {
                month: two_digits(s, 0) as u32,
                day: two_digits(s, 3) as u32,
                hour: two_digits(s, 6) as u32,
                minute: two_digits(s, 9) as u32,
                second: two_digits(s, 12) as u32,
                nanosecond: if s.len() == 14 {
                    0
                } else {
                    fraction_nanos(s.subrange(15, s.len() as int)) as u32
                },
            },
        )
    } else {
        None
    }
}

pub open spec fn is_leap_year(y: int) -> bool {
    y % 4 == 0 && (y % 100 != 0 || y % 400 == 0)
}

pub open spec fn days_in_month(y: int, m: int) -> int {
    if m == 2 {
        if is_leap_year(y) {
            29
        } else {
            28
        }
    } else if m == 4 || m == 6 || m == 9 || m == 11 {
        30
    } else {
        31
    }
}

/// A date of the proleptic Gregorian calendar within the years that the
/// calendar library represents.
pub open spec fn valid_date(y: int, m: int, d: int) -> bool {
    -262143 <= y <= 262142 && 1 <= m <= 12 && 1 <= d <= days_in_month(y, m)
}

/// The year and fields name a calendar date and a time of day.
pub open spec fn fields_valid(year: i32, f: TimeFields) -> bool {
    valid_date(year as int, f.month as int, f.day as int) && f.hour < 24 && f.minute < 60
        && f.second < 60
}

/// The timestamp of the year and fields at the given offset.
pub open spec fn stamp(year: i32, f: TimeFields, offset: i32) -> Timestamp {
    Timestamp {
        year,
        month: f.month,
        day: f.day,
        hour: f.hour,
        minute: f.minute,
        second: f.second,
        nanosecond: f.nanosecond,
        offset_seconds: offset,
    }
}

/// The outcome for the year and fields under a resolution by the local time zone.
pub open spec fn resolve_spec(year: i32, f: TimeFields, res: LocalResolution) -> Result<
    Timestamp,
    TimestampError,
> {
    match res {
        LocalResolution::Single(offset) => Ok(stamp(year, f, offset)),
        LocalResolution::Ambiguous => Err(TimestampError::AmbiguousLocalTime),
        LocalResolution::Nonexistent => Err(TimestampError::NonexistentLocalTime),
    }
}

/// Relies on `NaiveDate::from_ymd_opt`, `NaiveTime::from_hms_nano_opt` and
/// `NaiveDateTime::and_local_timezone` with `chrono::Local`: the date and time of
/// day exist for these values, and the machine's time zone maps that local
/// moment to one offset from UTC (`FixedOffset::local_minus_utc`, which lies
/// strictly within a day), to two, or to none.
#[verifier::external_body]
fn resolve_local(year: i32, f: TimeFields) -> (r: LocalResolution)
    requires
        fields_valid(year, f),
        f.nanosecond < 1_000_000_000,
    ensures
        r matches LocalResolution::Single(o) ==> -86_400 < o < 86_400,
{
    let date = NaiveDate::from_ymd_opt(year, f.month, f.day).expect("a valid date");
    let time = NaiveTime::from_hms_nano_opt(f.hour, f.minute, f.second, f.nanosecond).expect(
        "a valid time",
    );
    match NaiveDateTime::new(date, time).and_local_timezone(Local) {
        MappedLocalTime::Single(t) => LocalResolution::Single(t.offset().local_minus_utc()),
        MappedLocalTime::Ambiguous(_, _) => LocalResolution::Ambiguous,
        MappedLocalTime::None => LocalResolution::Nonexistent,
    }
}

fn digit_at(cs: &Vec<char>, i: usize) -> (r: bool)
    requires
        i < cs@.len(),
    ensures
        r == is_digit(cs@[i as int]),
{
    '0' <= cs[i] && cs[i] <= '9'
}

fn two_digits_at(cs: &Vec<char>, i: usize) -> (r: u32)
    requires
        i <= 12,
        i + 1 < cs@.len(),
        is_digit(cs@[i as int]),
        is_digit(cs@[i + 1]),
    ensures
        r == two_digits(cs@, i as int),
        r < 100,
{
    10 * (cs[i] as u32 - '0' as u32) + (cs[i + 1] as u32 - '0' as u32)
}

proof fn lemma_pow10_mono(a: nat, b: nat)
    requires
        a <= b,
    ensures
        pow10(a) <= pow10(b),
    decreases b - a,
{
    if a < b {
        lemma_pow10_mono(a, (b - 1) as nat);
    }
}

/// The nanoseconds that the digits `cs[from..]` after a decimal point stand for.
fn fraction_at(cs: &Vec<char>, from: usize) -> (r: u32)
    requires
        from <= cs@.len(),
        forall|i: int| from <= i < cs@.len() ==> is_digit(#[trigger] cs@[i]),
    ensures
        r == fraction_nanos(cs@.subrange(from as int, cs@.len() as int)),
        r < 1_000_000_000,
{
    let ghost ds = cs@.subrange(from as int, cs@.len() as int);
    let ghost nine = nine_digits(ds);
    let mut v: u32 = 0;
    let mut i: usize = 0;
    while i < 9
        invariant
            i <= 9,
            from <= cs@.len(),
            ds == cs@.subrange(from as int, cs@.len() as int),
            nine == nine_digits(ds),
            forall|m: int| from <= m < cs@.len() ==> is_digit(#[trigger] cs@[m]),
            v == digits_value(nine.take(i as int)),
            v < pow10(i as nat),
            pow10(i as nat) <= 1_000_000_000,
        decreases 9 - i,
    {
        let d: u32 = if i < cs.len() - from {
            cs[from + i] as u32 - '0' as u32
        } else {
            0
        };
        assert(nine[i as int] == if (i as int) < ds.len() { cs@[from + i] } else { '0' });
        assert(nine.take(i + 1).drop_last() =~= nine.take(i as int));
        assert(pow10((i + 1) as nat) == 10 * pow10(i as nat));
        proof {
            reveal_with_fuel(pow10, 10);
            assert(pow10(9) == 1_000_000_000);
            if i < 8 {
                lemma_pow10_mono((i + 1) as nat, 9);
            }
        }
        v = v * 10 + d;
        i = i + 1;
    }
    assert(nine.take(9) =~= nine);
    v
}

/// Reads the month, day and time of day from a timestamp text of the shape
/// `MM-DD|HH:MM:SS`, with an optional fraction of a second after a `.`.
pub fn parse_raw(raw: &str) -> (r: Option<TimeFields>)
    ensures
        r == parse_raw_spec(raw@),
        r matches Some(f) ==> f.nanosecond < 1_000_000_000,
{
    let cs = chars_of(raw);
    let n = cs.len();
    if n < 14 {
        return None;
    }
    if !(digit_at(&cs, 0) && digit_at(&cs, 1) && cs[2] == '-' && digit_at(&cs, 3) && digit_at(
        &cs,
        4,
    ) && cs[5] == '|' && digit_at(&cs, 6) && digit_at(&cs, 7) && cs[8] == ':' && digit_at(&cs, 9)
        && digit_at(&cs, 10) && cs[11] == ':' && digit_at(&cs, 12) && digit_at(&cs, 13)) {
        return None;
    }
    let mut nanosecond: u32 = 0;
    if n > 14 {
        if cs[14] != '.' || n == 15 {
            return None;
        }
        let mut i: usize = 15;
        while i < n
            invariant
                15 <= i <= n,
                n == cs@.len(),
                cs@ == raw@,
                forall|m: int| 15 <= m < i ==> is_digit(#[trigger] cs@[m]),
            decreases n - i,
        {
            if !digit_at(&cs, i) {
                return None;
            }
            i = i + 1;
        }
        nanosecond = fraction_at(&cs, 15);
    }
    Some(
        TimeFields {
            month: two_digits_at(&cs, 0),
            day: two_digits_at(&cs, 3),
            hour: two_digits_at(&cs, 6),
            minute: two_digits_at(&cs, 9),
            second: two_digits_at(&cs, 12),
            nanosecond,
        },
    )
}

/// Whether `year` is a leap year of the Gregorian calendar.
fn leap_year(year: i32) -> (r: bool)
    requires
        -262143 <= year <= 262142,
    ensures
        r == is_leap_year(year as int),
{
    let y: u32 = (year + 400000) as u32;
    assert((year + 400000) % 4 == year % 4);
    assert((year + 400000) % 100 == year % 100);
    assert((year + 400000) % 400 == year % 400);
    y % 4 == 0 && (y % 100 != 0 || y % 400 == 0)
}

/// Whether the year and fields name a calendar date and a time of day.
pub fn date_time_exists(year: i32, f: TimeFields) -> (r: bool)
    ensures
        r == fields_valid(year, f),
{
    if year < -262143 || year > 262142 || f.month < 1 || f.month > 12 || f.day < 1 {
        return false;
    }
    let days: u32 = if f.month == 2 {
        if leap_year(year) {
            29
        } else {
            28
        }
    } else if f.month == 4 || f.month == 6 || f.month == 9 || f.month == 11 {
        30
    } else {
        31
    };
    f.day <= days && f.hour < 24 && f.minute < 60 && f.second < 60
}

/// The month, day and time of day that a timestamp text writes, checked to name
/// a calendar date and a time of day in `year`.
pub fn local_fields(raw: &str, year: i32) -> (r: Result<TimeFields, TimestampError>)
    ensures
        match parse_raw_spec(raw@) {
            None => r == Err::<TimeFields, TimestampError>(TimestampError::Malformed),
            Some(f) => if fields_valid(year, f) {
                r == Ok::<TimeFields, TimestampError>(f)
            } else {
                r == Err::<TimeFields, TimestampError>(TimestampError::InvalidDate)
            },
        },
        r matches Ok(f) ==> f.nanosecond < 1_000_000_000,
{
    match parse_raw(raw) {
        None => Err(TimestampError::Malformed),
        Some(f) => if date_time_exists(year, f) {
            Ok(f)
        } else {
            Err(TimestampError::InvalidDate)
        },
    }
}

/// Completes the year and fields with the local time zone's resolution of that
/// moment: one offset gives the timestamp; two, or none, are errors.
pub fn resolve(year: i32, fields: TimeFields, res: LocalResolution) -> (r: Result<
    Timestamp,
    TimestampError,
>)
    ensures
        r == resolve_spec(year, fields, res),
{
    match res {
        LocalResolution::Single(offset) => Ok(
            Timestamp {
                year,
                month: fields.month,
                day: fields.day,
                hour: fields.hour,
                minute: fields.minute,
                second: fields.second,
                nanosecond: fields.nanosecond,
                offset_seconds: offset,
            },
        ),
        LocalResolution::Ambiguous => Err(TimestampError::AmbiguousLocalTime),
        LocalResolution::Nonexistent => Err(TimestampError::NonexistentLocalTime),
    }
}

/// Builds the absolute local timestamp for a line's timestamp text in the given
/// year. A malformed text, or numbers that name no date or time of day, are
/// errors; otherwise the fields that `local_fields` gives are handed to the
/// local time zone, which decides: a moment it gives exactly one offset becomes
/// a timestamp with the supplied year and the written fields, and an ambiguous
/// or skipped moment is an error.
pub fn reconstruct(raw: &str, year: i32) -> (r: Result<Timestamp, TimestampError>)
    ensures
        match parse_raw_spec(raw@) {
            None => r == Err::<Timestamp, TimestampError>(TimestampError::Malformed),
            Some(f) => if !fields_valid(year, f) {
                r == Err::<Timestamp, TimestampError>(TimestampError::InvalidDate)
            } else {
                match r {
                    Ok(t) => t == stamp(year, f, t.offset_seconds) && -86_400 < t.offset_seconds
                        < 86_400,
                    Err(e) => e == TimestampError::AmbiguousLocalTime || e
                        == TimestampError::NonexistentLocalTime,
                }
            },
        },
{
    match local_fields(raw, year) {
        Err(e) => Err(e),
        Ok(f) => resolve(year, f, resolve_local(year, f)),
    }
}

/// A timestamp text of the expected shape that names a calendar date and a time
/// of day reconstructs, whenever the local time zone gives that moment one
/// offset, to a timestamp whose year is the supplied year and whose month, day,
/// hour, minute and second are the numbers written in the text.
pub proof fn lemma_reconstruct_exact(raw: Seq<char>, year: i32, offset: i32)
    requires
        parse_raw_spec(raw) matches Some(f) && fields_valid(year, f),
    ensures
        resolve_spec(year, parse_raw_spec(raw)->0, LocalResolution::Single(offset)) matches Ok(t)
            && t.year == year && t.month == two_digits(raw, 0) && t.day == two_digits(raw, 3)
            && t.hour == two_digits(raw, 6) && t.minute == two_digits(raw, 9) && t.second
            == two_digits(raw, 12) && t.offset_seconds == offset,
{
    assert(two_digits(raw, 0) < 100 && two_digits(raw, 3) < 100 && two_digits(raw, 6) < 100
        && two_digits(raw, 9) < 100 && two_digits(raw, 12) < 100);
}

} // verus!
