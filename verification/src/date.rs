//! Publication dates: the calendar fields that output paths and feeds print,
//! and the instant by which content is ordered.

use vstd::prelude::*;

verus! {

/// A publication timestamp with its UTC offset.
///
/// The calendar fields are the local date and time at `offset_seconds` east of
/// UTC; `unix_seconds` and `nanosecond` give the instant, by which dates are
/// ordered.
#[derive(Clone, Copy, Debug, PartialEq, Eq, Structural)]
pub struct PublishDate {
    pub year: i32,
    pub month: u8,
    pub day: u8,
    pub hour: u8,
    pub minute: u8,
    pub second: u8,
    pub nanosecond: u32,
    pub offset_seconds: i32,
    pub unix_seconds: i64,
}

impl PublishDate {
    /// The fields lie in the ranges of a four-digit calendar date and a time of day.
    pub open spec fn well_formed(&self) -> bool {
        &&& 0 <= self.year <= 9999
        &&& 1 <= self.month <= 12
        &&& 1 <= self.day <= 31
        &&& self.hour < 24
        &&& self.minute < 60
        &&& self.second < 60
        &&& self.nanosecond < 1_000_000_000
    }

    /// `self` is a later instant than `other`.
    pub open spec fn later_than(&self, other: &PublishDate) -> bool {
        self.unix_seconds > other.unix_seconds || (self.unix_seconds == other.unix_seconds
            && self.nanosecond > other.nanosecond)
    }

    /// Whether the fields lie in their ranges.
    pub fn is_well_formed(&self) -> (r: bool)
        ensures
            r == self.well_formed(),
    {
        0 <= self.year && self.year <= 9999 && 1 <= self.month && self.month <= 12 && 1 <= self.day
            && self.day <= 31 && self.hour < 24 && self.minute < 60 && self.second < 60
            && self.nanosecond < 1_000_000_000
    }

    /// Whether `self` is a later instant than `other`.
    pub fn is_later_than(&self, other: &PublishDate) -> (r: bool)
        ensures
            r == self.later_than(other),
    {
        self.unix_seconds > other.unix_seconds || (self.unix_seconds == other.unix_seconds
            && self.nanosecond > other.nanosecond)
    }
}

/// What the `time` crate reads from `text` as an RFC 3339 timestamp: its
/// calendar fields, offset and Unix time, or nothing where it rejects the text.
pub uninterp spec fn rfc3339_fields(text: Seq<char>) -> Option<PublishDate>;

/// What the `time` crate prints, in RFC 2822 form, for the instant
/// `unix_seconds` shown at `offset_seconds` east of UTC, or nothing where it
/// cannot represent or print it.
pub uninterp spec fn rfc2822_text(unix_seconds: i64, offset_seconds: i32) -> Option<Seq<char>>;

/// Calls `time::OffsetDateTime::parse` with the `Rfc3339` format and copies
/// the fields of what it returns. Nothing is claimed of the fields but that
/// they are a function of the text.
#[verifier::external_body]
fn time_parse_rfc3339(text: &str) -> (r: Option<PublishDate>)
    ensures
        r == rfc3339_fields(text@),
{
    let t = time::OffsetDateTime::parse(text, &time::format_description::well_known::Rfc3339).ok()?;
    Some(PublishDate {
        year: t.year(),
        month: u8::from(t.month()),
        day: t.day(),
        hour: t.hour(),
        minute: t.minute(),
        second: t.second(),
        nanosecond: t.nanosecond(),
        offset_seconds: t.offset().whole_seconds(),
        unix_seconds: t.unix_timestamp(),
    })
}

/// Calls `time::OffsetDateTime::format` with the `Rfc2822` format on the
/// instant `unix_seconds` moved to the offset `offset_seconds`. Nothing is
/// claimed of the text but that it is a function of the two numbers.
#[verifier::external_body]
fn time_format_rfc2822(unix_seconds: i64, offset_seconds: i32) -> (r: Option<String>)
    ensures
        match r {
            Some(s) => rfc2822_text(unix_seconds, offset_seconds) == Some(s@),
            None => rfc2822_text(unix_seconds, offset_seconds) is None,
        },
{
    let utc = time::OffsetDateTime::from_unix_timestamp(unix_seconds).ok()?;
    let offset = time::UtcOffset::from_whole_seconds(offset_seconds).ok()?;
    let local = utc.checked_to_offset(offset)?;
    local.format(&time::format_description::well_known::Rfc2822).ok()
}

/// The date that `text` gives when read as an RFC 3339 timestamp, where the
/// fields read lie in their ranges.
pub open spec fn parsed_date(text: Seq<char>) -> Option<PublishDate> {
    match rfc3339_fields(text) {
        Some(d) => if d.well_formed() {
            Some(d)
        } else {
            None
        },
        None => None,
    }
}

/// Reads an RFC 3339 timestamp such as `2024-01-15T10:30:00+00:00`.
pub fn parse_rfc3339(text: &str) -> (r: Option<PublishDate>)
    ensures
        r == parsed_date(text@),
        r matches Some(d) ==> d.well_formed(),
{
    match time_parse_rfc3339(text) {
        Some(d) => if d.is_well_formed() {
            Some(d)
        } else {
            None
        },
        None => None,
    }
}

/// The date in RFC 2822 form, or the empty text where it has none.
pub open spec fn rfc2822_or_empty(d: PublishDate) -> Seq<char> {
    match rfc2822_text(d.unix_seconds, d.offset_seconds) {
        Some(s) => s,
        None => Seq::empty(),
    }
}

/// The date in RFC 2822 form, as in `Mon, 15 Jan 2024 10:30:00 +0000`; empty
/// where the date cannot be printed in that form.
pub fn format_rfc2822(d: &PublishDate) -> (s: String)
    ensures
        s@ == rfc2822_or_empty(*d),
{
    match time_format_rfc2822(d.unix_seconds, d.offset_seconds) {
        Some(s) => s,
        None => String::new(),
    }
}

/// The decimal digit for `d`, for `d` from 0 to 9.
pub open spec fn digit(d: int) -> char {
    ((48 + d) as u8) as char
}

/// `n` in two decimal digits, zero-padded, for `n` from 0 to 99.
pub open spec fn two_digits(n: int) -> Seq<char> {
    seq![digit(n / 10), digit(n % 10)]
}

/// `n` in four decimal digits, zero-padded, for `n` from 0 to 9999.
pub open spec fn four_digits(n: int) -> Seq<char> {
    seq![digit(n / 1000), digit((n / 100) % 10), digit((n / 10) % 10), digit(n % 10)]
}

/// The calendar date as `YYYY-MM-DD`.
pub open spec fn iso_date(d: PublishDate) -> Seq<char> {
    four_digits(d.year as int) + seq!['-'] + two_digits(d.month as int) + seq!['-'] + two_digits(
        d.day as int,
    )
}

fn digit_char(d: u8) -> (c: char)
    requires
        d <= 9,
    ensures
        c == digit(d as int),
{
    (48u8 + d) as char
}

/// Appends `n` in two decimal digits.
pub fn push_two_digits(out: &mut Vec<char>, n: u8)
    requires
        n <= 99,
    ensures
        final(out)@ == old(out)@ + two_digits(n as int),
{
    out.push(digit_char(n / 10));
    out.push(digit_char(n % 10));
    assert(out@ == old(out)@ + two_digits(n as int));
}

/// Appends `n` in four decimal digits.
pub fn push_four_digits(out: &mut Vec<char>, n: u16)
    requires
        n <= 9999,
    ensures
        final(out)@ == old(out)@ + four_digits(n as int),
{
    out.push(digit_char((n / 1000) as u8));
    out.push(digit_char(((n / 100) % 10) as u8));
    out.push(digit_char(((n / 10) % 10) as u8));
    out.push(digit_char((n % 10) as u8));
    assert(out@ == old(out)@ + four_digits(n as int));
}

/// The calendar date of `d` as `YYYY-MM-DD`.
pub fn format_iso_date(d: &PublishDate) -> (v: Vec<char>)
    requires
        d.well_formed(),
    ensures
        v@ == iso_date(*d),
{
    let mut v: Vec<char> = Vec::new();
    push_four_digits(&mut v, d.year as u16);
    v.push('-');
    push_two_digits(&mut v, d.month);
    v.push('-');
    push_two_digits(&mut v, d.day);
    assert(v@ == iso_date(*d));
    v
}

} // verus!
