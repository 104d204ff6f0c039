//! Points in time, as the cache keeps them.
use vstd::prelude::*;

verus! {

/// A point in time, in nanoseconds since the Unix epoch (UTC).
#[derive(Debug, Clone, Copy, PartialEq, Eq, Structural)]
pub struct Timestamp {
    pub unix_nanos: i128,
}

/// A UTC calendar date and clock time.
#[derive(Debug, Clone, Copy, PartialEq, Eq, Structural)]
pub struct CivilTime {
    pub year: i32,
    pub month: u8,
    pub day: u8,
    pub hour: u8,
    pub minute: u8,
    pub second: u8,
}

/// The UTC calendar date and clock time of a Unix timestamp in nanoseconds,
/// or `None` where the timestamp lies outside the supported years.
pub uninterp spec fn utc_calendar(unix_nanos: int) -> Option<CivilTime>;

/// Relies on `time::OffsetDateTime::from_unix_timestamp_nanos`, which fails
/// exactly when the timestamp lies outside the supported years, and on its
/// `to_calendar_date` and `to_hms` for the UTC date and time of day. The
/// outcome depends on the timestamp alone.
#[verifier::external_body]
fn utc_calendar_time(unix_nanos: i128) -> (r: Option<CivilTime>)
    ensures
        r == utc_calendar(unix_nanos as int),
{
    let t = time::OffsetDateTime::from_unix_timestamp_nanos(unix_nanos).ok()?;
    let (year, month, day) = t.to_calendar_date();
    let (hour, minute, second) = t.to_hms();
    Some(CivilTime { year, month: u8::from(month), day, hour, minute, second })
}

/// The decimal digit character for `d`.
pub open spec fn digit_char(d: int) -> char {
    if d == 0 { '0' }
    else if d == 1 { '1' }
    else if d == 2 { '2' }
    else if d == 3 { '3' }
    else if d == 4 { '4' }
    else if d == 5 { '5' }
    else if d == 6 { '6' }
    else if d == 7 { '7' }
    else if d == 8 { '8' }
    else { '9' }
}

/// `n` in exactly `width` decimal digits, zero padded.
pub open spec fn padded_digits(n: nat, width: nat) -> Seq<char>
    decreases width,
{
    if width == 0 {
        Seq::empty()
    } else {
        padded_digits(n / 10, (width - 1) as nat).push(digit_char((n % 10) as int))
    }
}

/// The GeneralizedTime text (RFC 4517) of a calendar time, `YYYYMMDDHHMMSSZ`
/// with a leading `-` for years before year zero, or `None` when a field does
/// not fit its digits.
pub open spec fn generalized_time_text(t: CivilTime) -> Option<Seq<char>> {
    if -9999 <= t.year <= 9999 && t.month < 100 && t.day < 100 && t.hour < 100 && t.minute < 100
        && t.second < 100 {
        let sign = if t.year < 0 { seq!['-'] } else { Seq::empty() };
        let year = if t.year < 0 { -t.year } else { t.year as int };
        Some(sign + padded_digits(year as nat, 4) + padded_digits(t.month as nat, 2)
            + padded_digits(t.day as nat, 2) + padded_digits(t.hour as nat, 2) + padded_digits(
            t.minute as nat,
            2,
        ) + padded_digits(t.second as nat, 2) + seq!['Z'])
    } else {
        None
    }
}

fn digit(d: u32) -> (c: char)
    requires
        d < 10,
    ensures
        c == digit_char(d as int),
{
    if d == 0 { '0' }
    else if d == 1 { '1' }
    else if d == 2 { '2' }
    else if d == 3 { '3' }
    else if d == 4 { '4' }
    else if d == 5 { '5' }
    else if d == 6 { '6' }
    else if d == 7 { '7' }
    else if d == 8 { '8' }
    else { '9' }
}

/// Appends `n` in exactly `width` decimal digits.
fn push_digits(s: &mut String, n: u32, width: u32)
    requires
        width <= 9,
    ensures
        final(s)@ == old(s)@ + padded_digits(n as nat, width as nat),
    decreases width,
{
    if width > 0 {
        push_digits(s, n / 10, width - 1);
        s.push(digit(n % 10));
        proof {
            assert(padded_digits(n as nat, width as nat) == padded_digits(
                (n / 10) as nat,
                (width - 1) as nat,
            ).push(digit_char((n % 10) as int)));
        }
    } else {
        assert(old(s)@ + padded_digits(n as nat, 0) =~= old(s)@);
    }
}

/// Formats a calendar time as GeneralizedTime text.
pub fn generalized_time(t: CivilTime) -> (r: Option<String>)
    ensures
        match r {
            Some(s) => generalized_time_text(t) == Some(s@),
            None => generalized_time_text(t) is None,
        },
{
    if !(-9999 <= t.year && t.year <= 9999 && t.month < 100 && t.day < 100 && t.hour < 100
        && t.minute < 100 && t.second < 100) {
        return None;
    }
    let mut s = String::new();
    if t.year < 0 {
        s.push('-');
    }
    let year: u32 = if t.year < 0 { (-t.year) as u32 } else { t.year as u32 };
    push_digits(&mut s, year, 4);
    push_digits(&mut s, t.month as u32, 2);
    push_digits(&mut s, t.day as u32, 2);
    push_digits(&mut s, t.hour as u32, 2);
    push_digits(&mut s, t.minute as u32, 2);
    push_digits(&mut s, t.second as u32, 2);
    s.push('Z');
    proof {
        let sign = if t.year < 0 { seq!['-'] } else { Seq::<char>::empty() };
        assert(s@ =~= sign + padded_digits(year as nat, 4) + padded_digits(t.month as nat, 2)
            + padded_digits(t.day as nat, 2) + padded_digits(t.hour as nat, 2) + padded_digits(
            t.minute as nat,
            2,
        ) + padded_digits(t.second as nat, 2) + seq!['Z']);
    }
    Some(s)
}

/// The GeneralizedTime text of a point in time, as the calendar conversion
/// and then the formatting give it; `None` where either fails.
pub open spec fn timestamp_text(t: Timestamp) -> Option<Seq<char>> {
    match utc_calendar(t.unix_nanos as int) {
        Some(c) => generalized_time_text(c),
        None => None,
    }
}

impl Timestamp {
    /// The GeneralizedTime text of this point in time, or `None` when it lies
    /// outside the supported years.
    pub fn generalized_time(&self) -> (r: Option<String>)
        ensures
            match r {
                Some(s) => timestamp_text(*self) == Some(s@),
                None => timestamp_text(*self) is None,
            },
    {
        match utc_calendar_time(self.unix_nanos) {
            Some(c) => generalized_time(c),
            None => None,
        }
    }
}

} // verus!
