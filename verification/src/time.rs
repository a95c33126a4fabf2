//! Time ranges and the reading of timestamps (milliseconds since the UNIX
//! epoch) in the formats that logs commonly use.
use vstd::prelude::*;
use crate::error::Error;
use crate::query::value::Timestamp;
use crate::text::{is_digit, push_str, string_from_chars, to_chars};
use crate::duration::digits_value;

verus! {

/// What `chrono::DateTime::parse_from_rfc3339` gives for `s`, in milliseconds.
pub uninterp spec fn rfc3339_millis(s: Seq<char>) -> Option<i64>;

/// What `chrono::DateTime::parse_from_rfc2822` gives for `s`, in milliseconds.
pub uninterp spec fn rfc2822_millis(s: Seq<char>) -> Option<i64>;

/// What `chrono::DateTime::parse_from_str` gives for `s` in the format `fmt`:
/// milliseconds, or the message of its error.
pub uninterp spec fn zoned_millis(s: Seq<char>, fmt: Seq<char>) -> Result<i64, Seq<char>>;

/// What `chrono::NaiveDateTime::parse_from_str` gives for `s` in the format
/// `fmt`, read as UTC: milliseconds, or the message of its error.
pub uninterp spec fn naive_millis(s: Seq<char>, fmt: Seq<char>) -> Result<i64, Seq<char>>;

/// Calls `chrono::DateTime::parse_from_rfc3339` and takes `timestamp_millis` of
/// the result. The contract claims only that the outcome is a function of `s`.
#[verifier::external_body]
fn parse_rfc3339(s: &str) -> (r: Option<i64>)
    ensures
        r == rfc3339_millis(s@),
{
    match chrono::DateTime::parse_from_rfc3339(s) {
        Ok(dt) => Some(dt.timestamp_millis()),
        Err(_) => None,
    }
}

/// Calls `chrono::DateTime::parse_from_rfc2822` and takes `timestamp_millis` of
/// the result. The contract claims only that the outcome is a function of `s`.
#[verifier::external_body]
fn parse_rfc2822(s: &str) -> (r: Option<i64>)
    ensures
        r == rfc2822_millis(s@),
{
    match chrono::DateTime::parse_from_rfc2822(s) {
        Ok(dt) => Some(dt.timestamp_millis()),
        Err(_) => None,
    }
}

/// Calls `chrono::DateTime::parse_from_str` and takes `timestamp_millis` of the
/// result, or the text of the error. The contract claims only that the outcome
/// is a function of `s` and `fmt`.
#[verifier::external_body]
fn parse_zoned(s: &str, fmt: &str) -> (r: Result<i64, String>)
    ensures
        match r {
            Ok(v) => zoned_millis(s@, fmt@) == Ok::<i64, Seq<char>>(v),
            Err(m) => zoned_millis(s@, fmt@) == Err::<i64, Seq<char>>(m@),
        },
{
    match chrono::DateTime::parse_from_str(s, fmt) {
        Ok(dt) => Ok(dt.timestamp_millis()),
        Err(e) => Err(e.to_string()),
    }
}

/// Calls `chrono::NaiveDateTime::parse_from_str` and takes the milliseconds of
/// the result read as UTC, or the text of the error. The contract claims only
/// that the outcome is a function of `s` and `fmt`.
#[verifier::external_body]
fn parse_naive(s: &str, fmt: &str) -> (r: Result<i64, String>)
    ensures
        match r {
            Ok(v) => naive_millis(s@, fmt@) == Ok::<i64, Seq<char>>(v),
            Err(m) => naive_millis(s@, fmt@) == Err::<i64, Seq<char>>(m@),
        },
{
    match chrono::NaiveDateTime::parse_from_str(s, fmt) {
        Ok(dt) => Ok(dt.and_utc().timestamp_millis()),
        Err(e) => Err(e.to_string()),
    }
}

/// An interval of time, open at either end.
#[derive(Clone, Copy, Debug)]
pub struct TimeRange {
    start: Option<Timestamp>,
    end: Option<Timestamp>,
}

pub open spec fn range_msg() -> Seq<char> {
    "end time is before start time"@
}

impl TimeRange {
    pub closed spec fn start_spec(&self) -> Option<Timestamp> {
        self.start
    }

    pub closed spec fn end_spec(&self) -> Option<Timestamp> {
        self.end
    }

    /// The range from `start` to `end`; a start after the end is refused.
    pub fn new(start: Option<Timestamp>, end: Option<Timestamp>) -> (r: Result<TimeRange, Error>)
        ensures
            match r {
                Ok(t) => t.start_spec() == start && t.end_spec() == end,
                Err(e) => e.message_spec() == range_msg(),
            },
            r is Err <==> (start matches Some(s) && end matches Some(e) && s > e),
    {
        let s = match start {
            Some(s) => s,
            None => i64::MIN,
        };
        let e = match end {
            Some(e) => e,
            None => i64::MAX,
        };
        if s > e {
            return Err(Error::new("end time is before start time"));
        }
        Ok(TimeRange { start, end })
    }

    /// The unbounded range.
    pub fn infinity() -> (t: TimeRange)
        ensures
            t.start_spec() is None,
            t.end_spec() is None,
    {
        TimeRange { start: None, end: None }
    }

    pub fn start(&self) -> (s: Option<Timestamp>)
        ensures
            s == self.start_spec(),
    {
        self.start
    }

    pub fn end(&self) -> (e: Option<Timestamp>)
        ensures
            e == self.end_spec(),
    {
        self.end
    }
}

/// Whether `"%z"` occurs in `fmt`.
pub open spec fn has_zone(fmt: Seq<char>) -> bool {
    exists|i: int| 0 <= i && i + 1 < fmt.len() && fmt[i] == '%' && #[trigger] fmt[i + 1] == 'z'
}

fn contains_zone(fmt: &str) -> (b: bool)
    ensures
        b == has_zone(fmt@),
{
    let v = to_chars(fmt);
    let mut i: usize = 0;
    while i < v.len()
        invariant
            v@ == fmt@,
            i <= v@.len(),
            forall|j: int| 0 <= j < i && j + 1 < v@.len() ==> !(v@[j] == '%' && #[trigger] v@[j + 1] == 'z'),
        decreases v@.len() - i,
    {
        if i + 1 < v.len() && v[i] == '%' && v[i + 1] == 'z' {
            return true;
        }
        i = i + 1;
    }
    false
}

pub open spec fn spec_parse_time(s: Seq<char>, fmt: Seq<char>) -> Result<i64, Seq<char>> {
    let r = if has_zone(fmt) { zoned_millis(s, fmt) } else { naive_millis(s, fmt) };
    match r {
        Ok(v) => Ok(v),
        Err(m) => Err("couldn't parse timestamp: "@ + m),
    }
}

/// The timestamp written in `s` in the format `format` (a format with a time
/// zone, `%z`, is read with it; any other as UTC).
pub fn parse_time(s: &str, format: &str) -> (r: Result<Timestamp, Error>)
    ensures
        match r {
            Ok(v) => spec_parse_time(s@, format@) == Ok::<i64, Seq<char>>(v),
            Err(e) => spec_parse_time(s@, format@) == Err::<i64, Seq<char>>(e.message_spec()),
        },
{
    let r = if contains_zone(format) { parse_zoned(s, format) } else { parse_naive(s, format) };
    match r {
        Ok(v) => Ok(v),
        Err(m) => {
            let mut msg: Vec<char> = Vec::new();
            push_str(&mut msg, "couldn't parse timestamp: ");
            push_str(&mut msg, m.as_str());
            Err(Error::from_string(string_from_chars(msg.as_slice())))
        },
    }
}

/// Every character is a decimal digit.
pub open spec fn all_digits(s: Seq<char>) -> bool {
    forall|i: int| 0 <= i < s.len() ==> is_digit(#[trigger] s[i])
}

/// The formats tried in turn: RFC 3339, RFC 2822, the nginx format and three
/// ISO-like ones; then a number of seconds (10 digits) or milliseconds (13
/// digits) since the epoch.
pub open spec fn spec_try_parse_time(s: Seq<char>) -> Option<i64> {
    if rfc3339_millis(s) is Some {
        rfc3339_millis(s)
    } else if rfc2822_millis(s) is Some {
        rfc2822_millis(s)
    } else if zoned_millis(s, "%d/%b/%Y:%H:%M:%S %z"@) is Ok {
        Some(zoned_millis(s, "%d/%b/%Y:%H:%M:%S %z"@)->Ok_0)
    } else if naive_millis(s, "%Y-%m-%d %H:%M:%S%.f"@) is Ok {
        Some(naive_millis(s, "%Y-%m-%d %H:%M:%S%.f"@)->Ok_0)
    } else if naive_millis(s, "%Y-%m-%dT%H:%M:%S%.f"@) is Ok {
        Some(naive_millis(s, "%Y-%m-%dT%H:%M:%S%.f"@)->Ok_0)
    } else if zoned_millis(s, "%Y-%m-%d %H:%M:%S%.f %z"@) is Ok {
        Some(zoned_millis(s, "%Y-%m-%d %H:%M:%S%.f %z"@)->Ok_0)
    } else {
        unix_time(s)
    }
}

/// A number of seconds (10 digits) or milliseconds (13 digits) since the epoch.
pub open spec fn unix_time(s: Seq<char>) -> Option<i64> {
    if all_digits(s) && s.len() == 10 {
        Some((digits_value(s, 0, 10) * 1000) as i64)
    } else if all_digits(s) && s.len() == 13 {
        Some(digits_value(s, 0, 13) as i64)
    } else {
        None
    }
}

/// The decimal value of `s`, all digits, if it fits in an `i64`.
fn decimal_i64(s: &Vec<char>) -> (r: Option<i64>)
    requires
        all_digits(s@),
    ensures
        match r {
            Some(v) => v == digits_value(s@, 0, s@.len() as int),
            None => digits_value(s@, 0, s@.len() as int) > i64::MAX,
        },
{
    let mut v: i64 = 0;
    let mut i: usize = 0;
    while i < s.len()
        invariant
            all_digits(s@),
            i <= s@.len(),
            v == digits_value(s@, 0, i as int),
        decreases s@.len() - i,
    {
        let d = (s[i] as u32) - ('0' as u32);
        assert(is_digit(s@[i as int]));
        if v > (i64::MAX - (d as i64)) / 10 {
            assert(digits_value(s@, 0, i + 1) == v * 10 + d);
            assert(v * 10 + d > i64::MAX) by (nonlinear_arith)
                requires v > (i64::MAX - d) / 10, d <= 9, v >= 0;
            proof { lemma_digits_grow(s@, i as int + 1); }
            return None;
        }
        assert(v * 10 + d <= i64::MAX) by (nonlinear_arith)
            requires v <= (i64::MAX - d) / 10, d <= 9, v >= 0;
        v = v * 10 + (d as i64);
        i = i + 1;
    }
    Some(v)
}

/// The value of a prefix of digits is at most that of a longer prefix.
proof fn lemma_digits_grow(s: Seq<char>, i: int)
    requires
        all_digits(s),
        0 <= i <= s.len(),
    ensures
        digits_value(s, 0, i) <= digits_value(s, 0, s.len() as int),
    decreases s.len() - i,
{
    if i < s.len() {
        lemma_digits_grow(s, i + 1);
        assert(digits_value(s, 0, i + 1) == digits_value(s, 0, i) * 10 + ((s[i] as u32) - ('0' as u32)) as nat);
    }
}

/// The timestamp in `s`, in one of the formats of `spec_try_parse_time`.
/// A string of digits must have a value that fits in an `i64` (and must not be
/// empty).
pub fn try_parse_time(s: &str) -> (r: Option<Timestamp>)
    requires
        all_digits(s@) ==> s@.len() > 0 && digits_value(s@, 0, s@.len() as int) <= i64::MAX,
    ensures
        r == spec_try_parse_time(s@),
{
    let a = parse_rfc3339(s);
    if a.is_some() {
        return a;
    }
    let b = parse_rfc2822(s);
    if b.is_some() {
        return b;
    }
    if let Ok(v) = parse_zoned(s, "%d/%b/%Y:%H:%M:%S %z") {
        return Some(v);
    }
    if let Ok(v) = parse_naive(s, "%Y-%m-%d %H:%M:%S%.f") {
        return Some(v);
    }
    if let Ok(v) = parse_naive(s, "%Y-%m-%dT%H:%M:%S%.f") {
        return Some(v);
    }
    if let Ok(v) = parse_zoned(s, "%Y-%m-%d %H:%M:%S%.f %z") {
        return Some(v);
    }
    let v = to_chars(s);
    assert(spec_try_parse_time(s@) == unix_time(s@));
    let mut i: usize = 0;
    while i < v.len()
        invariant
            v@ == s@,
            spec_try_parse_time(s@) == unix_time(s@),
            i <= v@.len(),
            forall|j: int| 0 <= j < i ==> is_digit(#[trigger] v@[j]),
        decreases v@.len() - i,
    {
        if !('0' <= v[i] && v[i] <= '9') {
            return None;
        }
        i = i + 1;
    }
    let n = match decimal_i64(&v) {
        Some(n) => n,
        None => { return None; },
    };
    if v.len() == 10 {
        assert(n <= 9_999_999_999) by {
            lemma_digits_bound(v@, 10);
            reveal_with_fuel(pow10, 11);
        }
        Some(n * 1000)
    } else if v.len() == 13 {
        Some(n)
    } else {
        None
    }
}

/// Ten digits are less than ten to the tenth.
proof fn lemma_digits_bound(s: Seq<char>, k: int)
    requires
        all_digits(s),
        0 <= k <= 10,
        k <= s.len(),
    ensures
        digits_value(s, 0, k) < pow10(k),
    decreases k,
{
    if k > 0 {
        lemma_digits_bound(s, k - 1);
        assert(digits_value(s, 0, k) == digits_value(s, 0, k - 1) * 10 + ((s[k - 1] as u32) - ('0' as u32)) as nat);
        assert(is_digit(s[k - 1]));
        assert(digits_value(s, 0, k - 1) * 10 + 9 < pow10(k - 1) * 10) by (nonlinear_arith)
            requires digits_value(s, 0, k - 1) < pow10(k - 1);
    }
}

spec fn pow10(k: int) -> int
    decreases k,
{
    if k <= 0 { 1 } else { 10 * pow10(k - 1) }
}

} // verus!
