//! Finding the type of a value from its text, and reading timestamps.

use vstd::prelude::*;
use crate::de::marker_at;
use crate::number::{
    float_text, is_digit, is_float_text, parse_signed, parse_unsigned, push_signed_decimal,
    signed_decimal_text,
};
use crate::result::{CefError, CefResult, ErrorModel};
use crate::text::{chars_of, string_of};
use crate::value::{infer, CefValue, true_text, false_text};

verus! {

/// Tells whether `chars` is the text `true`.
fn is_true(chars: &Vec<char>) -> (r: bool)
    ensures
        r == (chars@ == true_text()),
{
    let r = chars.len() == 4 && chars[0] == 't' && chars[1] == 'r' && chars[2] == 'u' && chars[3]
        == 'e';
    proof {
        if r {
            assert(chars@ =~= true_text());
        }
    }
    r
}

/// Tells whether `chars` is the text `false`.
fn is_false(chars: &Vec<char>) -> (r: bool)
    ensures
        r == (chars@ == false_text()),
{
    let r = chars.len() == 5 && chars[0] == 'f' && chars[1] == 'a' && chars[2] == 'l' && chars[3]
        == 's' && chars[4] == 'e';
    proof {
        if r {
            assert(chars@ =~= false_text());
        }
    }
    r
}

/// Finds the type of a value from its text.
pub fn try_detect_type(raw: &str) -> (value: CefValue)
    ensures
        value@ == infer(raw@),
{
    let chars = chars_of(raw);
    if is_true(&chars) {
        return CefValue::Bool(true);
    }
    if is_false(&chars) {
        return CefValue::Bool(false);
    }
    if let Some(data) = parse_unsigned(&chars, u64::MAX) {
        return CefValue::U64(data);
    }
    if let Some(data) = parse_signed(&chars) {
        return CefValue::I64(data);
    }
    if is_float_text(&chars) {
        return CefValue::Float(String::from_str(raw));
    }
    CefValue::String(String::from_str(raw))
}

/// A point in time: the whole seconds since the start of 1970, and the
/// nanoseconds after them.
#[derive(Debug, Clone, Copy, PartialEq, Eq)]
pub struct PreciseTimestamp {
    pub secs: i64,
    pub nanos: u32,
}

/// Seconds since the start of 1970, as a timestamp was read.
#[derive(Debug, PartialEq, Eq)]
pub enum Timestamp {
    /// A number of seconds as the text wrote it, in the shape of a
    /// floating-point number.
    Number(String),
    /// A date and time, counted in seconds.
    Instant(PreciseTimestamp),
}

/// A `Timestamp` with its text as a sequence of characters.
pub enum TimestampModel {
    Number(Seq<char>),
    Instant(PreciseTimestamp),
}

impl View for Timestamp {
    type V = TimestampModel;

    open spec fn view(&self) -> TimestampModel {
        match self {
            Timestamp::Number(text) => TimestampModel::Number(text@),
            Timestamp::Instant(at) => TimestampModel::Instant(*at),
        }
    }
}

impl Clone for Timestamp {
    fn clone(&self) -> (r: Self)
        ensures
            r@ == self@,
    {
        match self {
            Timestamp::Number(text) => Timestamp::Number(text.clone()),
            Timestamp::Instant(at) => Timestamp::Instant(*at),
        }
    }
}

/// What `chrono::NaiveDateTime::parse_from_str` reads from `text` in the
/// format `format`, as seconds since the start of 1970.
pub uninterp spec fn naive_datetime_seconds(text: Seq<char>, format: Seq<char>) -> Result<
    i64,
    chrono::ParseError,
>;

/// What `chrono::DateTime::parse_from_str` reads from `text` in the format
/// `format`: the seconds since the start of 1970, and the nanoseconds.
pub uninterp spec fn zoned_datetime_instant(text: Seq<char>, format: Seq<char>) -> Result<
    (i64, u32),
    chrono::ParseError,
>;

/// What `chrono::DateTime::parse_from_rfc3339` reads from `text`: the
/// seconds since the start of 1970, and the nanoseconds.
pub uninterp spec fn rfc3339_datetime_instant(text: Seq<char>) -> Result<
    (i64, u32),
    chrono::ParseError,
>;

/// Calls `chrono::NaiveDateTime::parse_from_str`, and takes the date and
/// time that it read as one of UTC. The contract gives the outcome a name
/// and claims no more.
#[verifier::external_body]
fn naive_seconds(text: &str, format: &str) -> (r: Result<i64, chrono::ParseError>)
    ensures
        r == naive_datetime_seconds(text@, format@),
{
    match chrono::NaiveDateTime::parse_from_str(text, format) {
        Ok(at) => Ok(at.and_utc().timestamp()),
        Err(err) => Err(err),
    }
}

/// Calls `chrono::DateTime::parse_from_str`. The contract gives the outcome
/// a name and claims no more.
#[verifier::external_body]
fn zoned_instant(text: &str, format: &str) -> (r: Result<(i64, u32), chrono::ParseError>)
    ensures
        r == zoned_datetime_instant(text@, format@),
{
    match chrono::DateTime::parse_from_str(text, format) {
        Ok(at) => Ok((at.timestamp(), chrono::Timelike::nanosecond(&at.naive_utc()))),
        Err(err) => Err(err),
    }
}

/// Calls `chrono::DateTime::parse_from_rfc3339`. The contract gives the
/// outcome a name and claims no more.
#[verifier::external_body]
fn rfc3339_instant(text: &str) -> (r: Result<(i64, u32), chrono::ParseError>)
    ensures
        r == rfc3339_datetime_instant(text@),
{
    match chrono::DateTime::parse_from_rfc3339(text) {
        Ok(at) => Ok((at.timestamp(), chrono::Timelike::nanosecond(&at.naive_utc()))),
        Err(err) => Err(err),
    }
}

/// What `std::time::SystemTime::now()` is after `UNIX_EPOCH`, in seconds and
/// nanoseconds; `None` where the clock stands before it. The nanoseconds are
/// a part of one second.
#[verifier::external_body]
fn system_clock() -> (r: Option<(u64, u32)>)
    ensures
        r is Some ==> r.unwrap().1 < 1_000_000_000,
{
    match std::time::SystemTime::now().duration_since(std::time::UNIX_EPOCH) {
        Ok(since) => Some((since.as_secs(), since.subsec_nanos())),
        Err(_) => None,
    }
}

/// The format of a date without a time zone: year, name of the month, day,
/// and time.
pub open spec fn native_format() -> Seq<char> {
    "%Y %b %d %H:%M:%S"@
}

/// The format of a date as `26/Jun/2019 15:21:55.152120022 +0200`.
pub open spec fn english_format() -> Seq<char> {
    "%e/%b/%Y %H:%M:%S%.f %z"@
}

/// The text of a date that lacks its year, with the year `year` before it.
pub open spec fn dated(year: int, text: Seq<char>) -> Seq<char> {
    signed_decimal_text(year) + seq![' '] + text
}

/// A date and time with an error in the place of `chrono`'s.
pub open spec fn as_reading(read: Result<(i64, u32), chrono::ParseError>) -> Result<
    PreciseTimestamp,
    ErrorModel,
> {
    match read {
        Ok(at) => Ok(PreciseTimestamp { secs: at.0, nanos: at.1 }),
        Err(err) => Err(ErrorModel::InvalidDateFormat(err)),
    }
}

/// What `text` gives when it is read as a date in the native format, which
/// has no part of a second.
pub open spec fn native_reading(text: Seq<char>) -> Result<PreciseTimestamp, ErrorModel> {
    match naive_datetime_seconds(text, native_format()) {
        Ok(secs) => Ok(PreciseTimestamp { secs, nanos: 0 }),
        Err(err) => Err(ErrorModel::InvalidDateFormat(err)),
    }
}

/// What `text` gives when it is read as a date of RFC 3339.
pub open spec fn rfc3339_reading(text: Seq<char>) -> Result<PreciseTimestamp, ErrorModel> {
    as_reading(rfc3339_datetime_instant(text))
}

/// What `text` gives when it is read as a date in the english format.
pub open spec fn english_reading(text: Seq<char>) -> Result<PreciseTimestamp, ErrorModel> {
    as_reading(zoned_datetime_instant(text, english_format()))
}

/// What `text` gives when it is read as a number of seconds, which it is
/// where it has the shape of a floating-point number.
pub open spec fn number_reading(text: Seq<char>) -> Option<TimestampModel> {
    if float_text(text) {
        Some(TimestampModel::Number(text))
    } else {
        None
    }
}

/// The first of four readings that succeeded: the number of seconds where
/// there is one, else the date in the native format, else the date of RFC
/// 3339, else the date in the english format. Where all failed, the error is
/// that of the last.
pub open spec fn first_of(
    number: Option<TimestampModel>,
    native: Result<PreciseTimestamp, ErrorModel>,
    rfc3339: Result<PreciseTimestamp, ErrorModel>,
    english: Result<PreciseTimestamp, ErrorModel>,
) -> Result<TimestampModel, ErrorModel> {
    match number {
        Some(ts) => Ok(ts),
        None => match native {
            Ok(at) => Ok(TimestampModel::Instant(at)),
            Err(_) => match rfc3339 {
                Ok(at) => Ok(TimestampModel::Instant(at)),
                Err(_) => match english {
                    Ok(at) => Ok(TimestampModel::Instant(at)),
                    Err(err) => Err(err),
                },
            },
        },
    }
}

/// The timestamp that `raw` holds: the first that succeeds of `raw` read as
/// a number of seconds, `native` read as a date in the native format, `raw`
/// read as a date of RFC 3339 and `raw` read as a date in the english
/// format.
pub open spec fn resolve(raw: Seq<char>, native: Seq<char>) -> Result<
    TimestampModel,
    ErrorModel,
> {
    first_of(
        number_reading(raw),
        native_reading(native),
        rfc3339_reading(raw),
        english_reading(raw),
    )
}

/// The timestamp that the text `line` holds, where a date without a year
/// lies in the year `year`.
pub open spec fn timestamp_of(line: Seq<char>, year: int) -> Result<TimestampModel, ErrorModel> {
    resolve(line, dated(year, line))
}

/// A number of seconds that was read, with its text as a sequence of
/// characters.
pub open spec fn number_model(number: Option<Timestamp>) -> Option<TimestampModel> {
    match number {
        Some(ts) => Some(ts@),
        None => None,
    }
}

/// A date that was read, or the error in its place, with each text as a
/// sequence of characters.
pub open spec fn reading_model(r: CefResult<PreciseTimestamp>) -> Result<
    PreciseTimestamp,
    ErrorModel,
> {
    match r {
        Ok(at) => Ok(at),
        Err(err) => Err(err@),
    }
}

/// A timestamp that was read, or the error in its place, with each text as
/// a sequence of characters.
pub open spec fn outcome_model(r: CefResult<Timestamp>) -> Result<TimestampModel, ErrorModel> {
    match r {
        Ok(at) => Ok(at@),
        Err(err) => Err(err@),
    }
}

/// Reads `et` as a date of RFC 3339.
fn rfc3339_to_unix(et: &str) -> (r: CefResult<PreciseTimestamp>)
    ensures
        reading_model(r) == rfc3339_reading(et@),
{
    match rfc3339_instant(et) {
        Ok(date) => Ok(PreciseTimestamp { secs: date.0, nanos: date.1 }),
        Err(err) => Err(CefError::from(err)),
    }
}

/// Reads `et` as a date in the english format.
fn english_time_to_unix(et: &str) -> (r: CefResult<PreciseTimestamp>)
    ensures
        reading_model(r) == english_reading(et@),
{
    match zoned_instant(et, "%e/%b/%Y %H:%M:%S%.f %z") {
        Ok(date) => Ok(PreciseTimestamp { secs: date.0, nanos: date.1 }),
        Err(err) => Err(CefError::from(err)),
    }
}

/// Reads `et` as a number of seconds, which it is where it has the shape of
/// a floating-point number.
pub fn unix_strtime_to_unix(et: &str) -> (r: Option<Timestamp>)
    ensures
        number_model(r) == number_reading(et@),
{
    let chars = chars_of(et);
    if is_float_text(&chars) {
        Some(Timestamp::Number(String::from_str(et)))
    } else {
        None
    }
}

/// Reads `et` as a date in the native format.
pub(crate) fn native_to_unix(et: &str) -> (r: CefResult<PreciseTimestamp>)
    ensures
        reading_model(r) == native_reading(et@),
{
    match naive_seconds(et, "%Y %b %d %H:%M:%S") {
        Ok(secs) => Ok(PreciseTimestamp { secs, nanos: 0 }),
        Err(err) => Err(CefError::from(err)),
    }
}

/// Picks the timestamp among four readings of one text: the first that
/// succeeded, in the order of the parameters. Where all failed, the error
/// is that of `english`.
pub fn first_reading(
    number: Option<Timestamp>,
    native: CefResult<PreciseTimestamp>,
    rfc3339: CefResult<PreciseTimestamp>,
    english: CefResult<PreciseTimestamp>,
) -> (r: CefResult<Timestamp>)
    ensures
        outcome_model(r) == first_of(
            number_model(number),
            reading_model(native),
            reading_model(rfc3339),
            reading_model(english),
        ),
{
    if let Some(ts) = number {
        return Ok(ts);
    }
    if let Ok(at) = native {
        return Ok(Timestamp::Instant(at));
    }
    if let Ok(at) = rfc3339 {
        return Ok(Timestamp::Instant(at));
    }
    match english {
        Ok(at) => Ok(Timestamp::Instant(at)),
        Err(err) => Err(err),
    }
}

/// Reads `raw` in the four ways, `native` standing for it in the native
/// format, and picks the timestamp.
fn resolve_text(raw: &str, native: &str) -> (r: CefResult<Timestamp>)
    ensures
        outcome_model(r) == resolve(raw@, native@),
{
    let number = unix_strtime_to_unix(raw);
    let native = native_to_unix(native);
    let rfc3339 = rfc3339_to_unix(raw);
    let english = english_time_to_unix(raw);
    first_reading(number, native, rfc3339, english)
}

/// Writes `year`, a space and `text`.
fn with_year(year: i32, text: &str) -> (r: String)
    ensures
        r@ == dated(year as int, text@),
{
    let mut data = String::new();
    push_signed_decimal(&mut data, year as i64);
    data.push(' ');
    data.append(text);
    data
}

/// Try to deserialize date from string, with `year` for the year of a date
/// that has none.
///
/// Allowed formats are:
/// * Native `%b %d %H:%M:%S` (E.g: `Dec 19 01:07:56`)
/// * Timestamp (E.g: `1561554774.901402`)
/// * RFC 3339 (E.g: `2019-06-26T15:21:55+02:00`)
/// * English format `%e/%b/%Y %H:%M:%S%.f %z` (E.g: `26/Jun/2019 15:21:55.152120022 +0200`)
pub fn parse_ts(line: &str, year: i32) -> (r: CefResult<Timestamp>)
    ensures
        outcome_model(r) == timestamp_of(line@, year as int),
{
    let native = with_year(year, line);
    resolve_text(line, native.as_str())
}

impl PreciseTimestamp {
    /// The time that the system clock shows; `None` where it shows a time
    /// before 1970 or too far from it to be counted.
    #[inline]
    pub fn now() -> (r: Option<Self>)
        ensures
            is_clock_time(r),
    {
        let reading = system_clock();
        Self::from_clock(reading)
    }
}

/// Whether `r` is what some reading of the clock gives, as `clock_time` has it.
pub open spec fn is_clock_time(r: Option<PreciseTimestamp>) -> bool {
    exists|reading: Option<(u64, u32)>|
        (reading is Some ==> reading->Some_0.1 < 1_000_000_000) && r == #[trigger] clock_time(
            reading,
        )
}

/// The time that the system clock shows.
pub fn now() -> (r: Option<PreciseTimestamp>)
    ensures
        is_clock_time(r),
{
    PreciseTimestamp::now()
}

/// The time that a reading of the clock stands for. A reading is the whole
/// seconds and the nanoseconds since the start of 1970, or nothing where
/// the clock stands before it. The time is that of the reading, and none
/// where the seconds are too many for an `i64`.
pub open spec fn clock_time(reading: Option<(u64, u32)>) -> Option<PreciseTimestamp> {
    match reading {
        Some(since) => if since.0 <= i64::MAX {
            Some(PreciseTimestamp { secs: since.0 as i64, nanos: since.1 })
        } else {
            None
        },
        None => None,
    }
}

impl PreciseTimestamp {
    /// The time that a reading of the clock stands for.
    pub fn from_clock(reading: Option<(u64, u32)>) -> (r: Option<Self>)
        ensures
            r == clock_time(reading),
    {
        match reading {
            Some(since) => {
                if since.0 <= 0x7fff_ffff_ffff_ffff {
                    Some(PreciseTimestamp { secs: since.0 as i64, nanos: since.1 })
                } else {
                    None
                }
            },
            None => None,
        }
    }
}

/// A time that the clock gave lies at or after the start of 1970, and its
/// nanoseconds are a part of one second.
pub proof fn lemma_clock_time_bounds(r: Option<PreciseTimestamp>)
    requires
        is_clock_time(r),
    ensures
        r is Some ==> r->Some_0.secs >= 0 && r->Some_0.nanos < 1_000_000_000,
{
}

/// The first fifteen characters of `headers`, or all of it where it has
/// fewer: the place of the date in a Syslog header.
pub open spec fn date_part(headers: Seq<char>) -> Seq<char> {
    if headers.len() > 15 {
        headers.take(15)
    } else {
        headers
    }
}

/// The timestamp in the Syslog header `headers`, whose date has no year and
/// is taken to lie in the year `year`.
pub open spec fn header_timestamp(headers: Seq<char>, year: int) -> Result<
    TimestampModel,
    ErrorModel,
> {
    resolve(dated(year, date_part(headers)), dated(year, date_part(headers)))
}

/// Writes `year`, a space and the date of the Syslog header `headers`.
pub(crate) fn dated_header(headers: &str, year: i32) -> (r: String)
    ensures
        r@ == dated(year as int, date_part(headers@)),
{
    let chars = chars_of(headers);
    let end: usize = if chars.len() > 15 {
        15
    } else {
        chars.len()
    };
    let date = string_of(&chars, 0, end);
    proof {
        assert(chars@.subrange(0, end as int) =~= date_part(headers@));
    }
    with_year(year, date.as_str())
}

/// Extract timestamp from Syslog headers, with `year` for the year that
/// Syslog leaves out.
pub fn extract_ts_from_headers(headers: &str, year: i32) -> (r: CefResult<Timestamp>)
    ensures
        outcome_model(r) == header_timestamp(headers@, year as int),
{
    let data = dated_header(headers, year);
    resolve_text(data.as_str(), data.as_str())
}

/// Whether `c` is white space, as Unicode defines it.
pub open spec fn is_blank(c: char) -> bool {
    let n = c as int;
    (0x09 <= n <= 0x0d) || n == 0x20 || n == 0x85 || n == 0xa0 || n == 0x1680 || (0x2000 <= n
        <= 0x200a) || n == 0x2028 || n == 0x2029 || n == 0x202f || n == 0x205f || n == 0x3000
}

/// Whether a white space stands at index `c` of `s`, and after it the marker
/// `CEF:` and a digit.
pub open spec fn host_end_at(s: Seq<char>, c: int) -> bool {
    0 <= c && c + 5 < s.len() && is_blank(s[c]) && marker_at(s, c + 1) && is_digit(s[c + 5])
}

/// The greatest index below `bound` at which `host_end_at` holds.
pub open spec fn last_host_end(s: Seq<char>, bound: int) -> Option<int>
    decreases bound,
{
    if bound <= 0 {
        None
    } else if host_end_at(s, bound - 1) {
        Some(bound - 1)
    } else {
        last_host_end(s, bound - 1)
    }
}

/// The index of the last white space of `s` below `bound`; -1 where there is
/// none.
pub open spec fn last_blank(s: Seq<char>, bound: int) -> int
    decreases bound,
{
    if bound <= 0 {
        -1
    } else if bound <= s.len() && is_blank(s[bound - 1]) {
        bound - 1
    } else {
        last_blank(s, bound - 1)
    }
}

/// The index at which the run of white space that ends right before `end`
/// begins; `end` itself where no white space stands right before it.
pub open spec fn blank_run_start(s: Seq<char>, end: int) -> int
    decreases end,
{
    if 0 < end <= s.len() && is_blank(s[end - 1]) {
        blank_run_start(s, end - 1)
    } else {
        end
    }
}

/// Where the marker of `s` begins: right after the index that
/// `last_host_end` gives. A text without such a marker is taken for the
/// prefix of a line, and the marker for what followed it: it begins where
/// the text ends.
pub open spec fn marker_start(s: Seq<char>) -> int {
    match last_host_end(s, s.len() as int) {
        Some(c) => c + 1,
        None => s.len() as int,
    }
}

/// The host name in `s`, which is a line or the prefix of one: what stands
/// between the last two runs of white space before the marker. `None`
/// where no white space stands right before the marker, or where no second
/// run of white space stands before that one.
pub open spec fn hostname_of(s: Seq<char>) -> Option<Seq<char>> {
    let m = marker_start(s);
    let end = blank_run_start(s, m);
    let a = last_blank(s, end);
    if end < m && a >= 0 {
        Some(s.subrange(a + 1, end))
    } else {
        None
    }
}

/// Tells whether `c` is white space.
fn blank(c: char) -> (r: bool)
    ensures
        r == is_blank(c),
{
    let n = c as u32;
    (0x09 <= n && n <= 0x0d) || n == 0x20 || n == 0x85 || n == 0xa0 || n == 0x1680 || (0x2000 <= n
        && n <= 0x200a) || n == 0x2028 || n == 0x2029 || n == 0x202f || n == 0x205f || n == 0x3000
}

/// Tells whether `host_end_at` holds at index `c`.
fn host_ends(chars: &Vec<char>, c: usize) -> (r: bool)
    requires
        c <= chars.len(),
    ensures
        r == host_end_at(chars@, c as int),
{
    chars.len() - c > 5 && blank(chars[c]) && chars[c + 1] == 'C' && chars[c + 2] == 'E' && chars[c
        + 3] == 'F' && chars[c + 4] == ':' && '0' <= chars[c + 5] && chars[c + 5] <= '9'
}

/// Extract hostname from Syslog headers, given as a whole line or as the
/// prefix of one.
pub fn extract_hostname_from_headers(headers: &str) -> (r: CefResult<String>)
    ensures
        match r {
            Ok(host) => hostname_of(headers@) == Some(host@),
            Err(err) => hostname_of(headers@) is None && err@ == ErrorModel::NoneError,
        },
{
    let chars = chars_of(headers);
    let n = chars.len();
    let mut found: Option<usize> = None;
    let mut i: usize = 0;
    while i < n
        invariant
            i <= n,
            n == chars.len(),
            match found {
                Some(c) => c < i && last_host_end(chars@, i as int) == Some(c as int),
                None => last_host_end(chars@, i as int) is None,
            },
        decreases n - i,
    {
        if host_ends(&chars, i) {
            found = Some(i);
        }
        i += 1;
    }
    let m: usize = match found {
        Some(c) => c + 1,
        None => n,
    };
    let mut end: usize = m;
    while end > 0 && blank(chars[end - 1])
        invariant
            end <= m <= n,
            n == chars.len(),
            blank_run_start(chars@, m as int) == blank_run_start(chars@, end as int),
        decreases end,
    {
        end -= 1;
    }
    if end == m {
        return Err(CefError::NoneError);
    }
    let mut a: usize = end;
    while a > 0 && !blank(chars[a - 1])
        invariant
            a <= end <= n,
            n == chars.len(),
            last_blank(chars@, end as int) == last_blank(chars@, a as int),
        decreases a,
    {
        a -= 1;
    }
    if a == 0 {
        return Err(CefError::NoneError);
    }
    Ok(string_of(&chars, a, end))
}

} // verus!
