//! Calendar date-times as the library models them: a civil (naive local)
//! date-time of plain integer fields, and a zoned date-time pairing it with a
//! fixed UTC offset in seconds.
//!
//! Absolute date-time lines in the logs are `YYYY/MM/DD HH:MM:SS` with
//! zero-padded two-digit fields and a four-digit year; the parser here is
//! strict about that shape. Resolving a civil time against the system's local
//! time zone, or an IANA zone name against the clock, is delegated to the
//! `chrono` and `chrono-tz` crates through trusted wrappers; everything else
//! is plain verified arithmetic.
use crate::text::{
    all_digits, chars_to_string, dec_pad, digits_val, parse_u32, parse_u32_s, subvec,
    u64_to_chars_pad,
};
use vstd::prelude::*;

verus! {

/// A civil (zone-less) date and time of day.
#[derive(Clone, Copy, Debug, PartialEq, Eq, Structural)]
pub struct CivilDateTime {
    pub year: u32,
    pub month: u32,
    pub day: u32,
    pub hour: u32,
    pub minute: u32,
    pub second: u32,
}

pub open spec fn is_leap_year(y: int) -> bool {
    (y % 4 == 0 && y % 100 != 0) || y % 400 == 0
}

pub open spec fn days_in_month(y: int, m: int) -> int {
    if m == 2 {
        if is_leap_year(y) {
            29
        } else {
            28
        }
    } else if m == 4 || m == 6 || m == 9 || m == 11 {
        30
    } else {
        31
    }
}

impl CivilDateTime {
    /// A real calendar date (leap years included) with a four-digit year, and
    /// a time of day.
    pub open spec fn wf(self) -> bool {
        &&& self.year <= 9999
        &&& 1 <= self.month <= 12
        &&& 1 <= self.day <= days_in_month(self.year as int, self.month as int)
        &&& self.hour <= 23
        &&& self.minute <= 59
        &&& self.second <= 59
    }

    /// The calendar day as one integer, digits `YYYYMMDD`.
    pub open spec fn day_code_s(self) -> int {
        self.year * 10000 + self.month * 100 + self.day
    }

    /// The time of day as one integer, digits `HHMMSS`.
    pub open spec fn time_code_s(self) -> int {
        self.hour * 10000 + self.minute * 100 + self.second
    }

    pub fn day_code(&self) -> (r: u32)
        requires
            self.wf(),
        ensures
            r == self.day_code_s(),
    {
        self.year * 10000 + self.month * 100 + self.day
    }

    pub fn time_code(&self) -> (r: u32)
        requires
            self.wf(),
        ensures
            r == self.time_code_s(),
    {
        self.hour * 10000 + self.minute * 100 + self.second
    }

    /// Decide well-formedness: a real calendar date and a time of day.
    pub fn is_valid(&self) -> (r: bool)
        ensures
            r == self.wf(),
    {
        self.year <= 9999 && 1 <= self.month && self.month <= 12 && 1 <= self.day && self.day
            <= days_in_month_x(self.year, self.month) && self.hour <= 23 && self.minute <= 59
            && self.second <= 59
    }
}

/// A civil date-time resolved to a fixed UTC offset.
#[derive(Clone, Copy, Debug, PartialEq, Eq, Structural)]
pub struct ZonedDateTime {
    pub local: CivilDateTime,
    /// Seconds east of UTC, strictly within one day.
    pub offset_seconds: i32,
}

impl ZonedDateTime {
    pub open spec fn wf(self) -> bool {
        self.local.wf() && -86400 < self.offset_seconds < 86400
    }

    /// Decide well-formedness: a valid civil time and an in-range offset.
    pub fn is_valid(&self) -> (r: bool)
        ensures
            r == self.wf(),
    {
        self.local.is_valid() && -86400 < self.offset_seconds && self.offset_seconds < 86400
    }
}

fn days_in_month_x(y: u32, m: u32) -> (r: u32)
    ensures
        r == days_in_month(y as int, m as int),
{
    if m == 2 {
        if (y % 4 == 0 && y % 100 != 0) || y % 400 == 0 {
            29
        } else {
            28
        }
    } else if m == 4 || m == 6 || m == 9 || m == 11 {
        30
    } else {
        31
    }
}

/// The shape of an absolute date-time line: `YYYY/MM/DD HH:MM:SS`.
pub open spec fn datetime_shape(s: Seq<char>) -> bool {
    &&& s.len() == 19
    &&& s[4] == '/'
    &&& s[7] == '/'
    &&& s[10] == ' '
    &&& s[13] == ':'
    &&& s[16] == ':'
    &&& all_digits(s.subrange(0, 4))
    &&& all_digits(s.subrange(5, 7))
    &&& all_digits(s.subrange(8, 10))
    &&& all_digits(s.subrange(11, 13))
    &&& all_digits(s.subrange(14, 16))
    &&& all_digits(s.subrange(17, 19))
}

/// The fields read from a well-shaped date-time line.
pub open spec fn datetime_of(s: Seq<char>) -> CivilDateTime {
    CivilDateTime {
        year: digits_val(s.subrange(0, 4)) as u32,
        month: digits_val(s.subrange(5, 7)) as u32,
        day: digits_val(s.subrange(8, 10)) as u32,
        hour: digits_val(s.subrange(11, 13)) as u32,
        minute: digits_val(s.subrange(14, 16)) as u32,
        second: digits_val(s.subrange(17, 19)) as u32,
    }
}

/// The date-time a `YYYY/MM/DD HH:MM:SS` line denotes, when it is well shaped
/// and names a real calendar date and time of day.
pub open spec fn parse_datetime_s(s: Seq<char>) -> Option<CivilDateTime> {
    if datetime_shape(s) && datetime_of(s).wf() {
        Some(datetime_of(s))
    } else {
        None
    }
}

proof fn lemma_small_digits_fit(s: Seq<char>)
    requires
        all_digits(s),
        s.len() <= 4,
    ensures
        0 <= digits_val(s) <= 9999,
    decreases s.len(),
{
    if s.len() > 0 {
        assert(all_digits(s.drop_last())) by {
            assert forall|j: int| 0 <= j < s.len() - 1 implies crate::text::is_digit(
                #[trigger] s.drop_last()[j],
            ) by {
                assert(s.drop_last()[j] == s[j]);
            }
        }
        lemma_small_digits_fit(s.drop_last());
        assert(crate::text::is_digit(s[s.len() - 1]));
        assert(s.last() == s[s.len() - 1]);
        assert(digits_val(s.drop_last()) <= 999) by {
            lemma_digits_val_strict(s.drop_last());
        }
    }
}

/// A digit string of at most three digits reads below one thousand.
proof fn lemma_digits_val_strict(s: Seq<char>)
    requires
        all_digits(s),
        s.len() <= 3,
    ensures
        0 <= digits_val(s) <= 999,
    decreases s.len(),
{
    if s.len() > 0 {
        assert(all_digits(s.drop_last())) by {
            assert forall|j: int| 0 <= j < s.len() - 1 implies crate::text::is_digit(
                #[trigger] s.drop_last()[j],
            ) by {
                assert(s.drop_last()[j] == s[j]);
            }
        }
        lemma_digits_val_strict2(s.drop_last());
        assert(crate::text::is_digit(s[s.len() - 1]));
        assert(s.last() == s[s.len() - 1]);
    }
}

proof fn lemma_digits_val_strict2(s: Seq<char>)
    requires
        all_digits(s),
        s.len() <= 2,
    ensures
        0 <= digits_val(s) <= 99,
    decreases s.len(),
{
    if s.len() > 0 {
        assert(all_digits(s.drop_last())) by {
            assert forall|j: int| 0 <= j < s.len() - 1 implies crate::text::is_digit(
                #[trigger] s.drop_last()[j],
            ) by {
                assert(s.drop_last()[j] == s[j]);
            }
        }
        lemma_digits_val_strict1(s.drop_last());
        assert(crate::text::is_digit(s[s.len() - 1]));
        assert(s.last() == s[s.len() - 1]);
    }
}

proof fn lemma_digits_val_strict1(s: Seq<char>)
    requires
        all_digits(s),
        s.len() <= 1,
    ensures
        0 <= digits_val(s) <= 9,
{
    if s.len() > 0 {
        assert(crate::text::is_digit(s[s.len() - 1]));
        assert(s.last() == s[s.len() - 1]);
        assert(s.drop_last().len() == 0);
        assert(digits_val(s.drop_last()) == 0);
        assert(digits_val(s) == digits_val(s.drop_last()) * 10 + crate::text::digit_val(s.last()));
    }
}

fn parse_field(v: &[char], lo: usize, hi: usize) -> (r: Option<u32>)
    requires
        lo <= hi <= v@.len(),
        hi - lo <= 4,
    ensures
        r == parse_u32_s(v@.subrange(lo as int, hi as int)),
        r is Some <==> hi - lo > 0 && all_digits(v@.subrange(lo as int, hi as int)),
        r matches Some(n) ==> n == digits_val(v@.subrange(lo as int, hi as int)) && n <= 9999,
{
    let piece = subvec(v, lo, hi);
    proof {
        if piece@.len() > 0 && all_digits(piece@) {
            lemma_small_digits_fit(piece@);
        }
    }
    parse_u32(piece.as_slice())
}

/// Parse a strict `YYYY/MM/DD HH:MM:SS` date-time line; `None` when the shape
/// is wrong or the fields name no real calendar date or time of day.
pub fn parse_datetime(v: &[char]) -> (r: Option<CivilDateTime>)
    ensures
        r == parse_datetime_s(v@),
{
    if v.len() != 19 {
        return None;
    }
    if !(v[4] == '/' && v[7] == '/' && v[10] == ' ' && v[13] == ':' && v[16] == ':') {
        return None;
    }
    let year = match parse_field(v, 0, 4) {
        Some(n) => n,
        None => {
            return None;
        },
    };
    let month = match parse_field(v, 5, 7) {
        Some(n) => n,
        None => {
            return None;
        },
    };
    let day = match parse_field(v, 8, 10) {
        Some(n) => n,
        None => {
            return None;
        },
    };
    let hour = match parse_field(v, 11, 13) {
        Some(n) => n,
        None => {
            return None;
        },
    };
    let minute = match parse_field(v, 14, 16) {
        Some(n) => n,
        None => {
            return None;
        },
    };
    let second = match parse_field(v, 17, 19) {
        Some(n) => n,
        None => {
            return None;
        },
    };
    let dt = CivilDateTime { year, month, day, hour, minute, second };
    if !(month >= 1 && month <= 12 && day >= 1 && day <= days_in_month_x(year, month) && hour <= 23
        && minute <= 59 && second <= 59) {
        return None;
    }
    Some(dt)
}

/// `YYYY-MM-DD HH:MM:SS`, the shape of the date-time column of an output row.
pub open spec fn format_civil_s(dt: CivilDateTime) -> Seq<char> {
    dec_pad(dt.year as int, 4) + seq!['-'] + dec_pad(dt.month as int, 2) + seq!['-'] + dec_pad(
        dt.day as int,
        2,
    ) + seq![' '] + dec_pad(dt.hour as int, 2) + seq![':'] + dec_pad(dt.minute as int, 2)
        + seq![':'] + dec_pad(dt.second as int, 2)
}

/// Format a civil date-time for an output row.
pub fn format_civil(dt: &CivilDateTime) -> (r: String)
    ensures
        r@ == format_civil_s(*dt),
{
    let mut v = u64_to_chars_pad(dt.year as u64, 4);
    v.push('-');
    let mut p = u64_to_chars_pad(dt.month as u64, 2);
    v.append(&mut p);
    v.push('-');
    let mut p = u64_to_chars_pad(dt.day as u64, 2);
    v.append(&mut p);
    v.push(' ');
    let mut p = u64_to_chars_pad(dt.hour as u64, 2);
    v.append(&mut p);
    v.push(':');
    let mut p = u64_to_chars_pad(dt.minute as u64, 2);
    v.append(&mut p);
    v.push(':');
    let mut p = u64_to_chars_pad(dt.second as u64, 2);
    v.append(&mut p);
    proof {
        assert(v@ =~= format_civil_s(*dt));
    }
    chars_to_string(v.as_slice())
}

/// Relies on `chrono::offset::Local` and `chrono::NaiveDate`: resolves a civil
/// date-time against the system's local time zone and returns the resolved
/// fixed offset in seconds east of UTC; `None` when the civil time is
/// ambiguous or non-existent in that zone, or names no real date. The offset
/// comes out of a `chrono::FixedOffset`, which its constructors keep strictly
/// within one day.
#[verifier::external_body]
fn local_offset_seconds(dt: &CivilDateTime) -> (r: Option<i32>)
    ensures
        r matches Some(o) ==> -86400 < o < 86400,
{
    let date = match chrono::NaiveDate::from_ymd_opt(dt.year as i32, dt.month, dt.day) {
        Some(d) => d,
        None => return None,
    };
    let naive = match date.and_hms_opt(dt.hour, dt.minute, dt.second) {
        Some(t) => t,
        None => return None,
    };
    match chrono::TimeZone::from_local_datetime(&chrono::Local, &naive).single() {
        Some(z) => Some(z.offset().local_minus_utc()),
        None => None,
    }
}

/// Relies on `chrono_tz::Tz` and `chrono::Utc::now`: parses an IANA zone name
/// and returns that zone's current offset in seconds east of UTC; `None` when
/// the name is not in the zone table. The offset comes out of a
/// `chrono::FixedOffset`, which its constructors keep strictly within one day.
#[verifier::external_body]
fn tz_offset_seconds_now(name: &str) -> (r: Option<i32>)
    ensures
        r matches Some(o) ==> -86400 < o < 86400,
{
    let tz: chrono_tz::Tz = match name.parse() {
        Ok(t) => t,
        Err(_) => return None,
    };
    let now = chrono::Utc::now().with_timezone(&tz);
    Some(chrono::Offset::fix(now.offset()).local_minus_utc())
}

/// The fixed offset a record's civil time resolves to: the caller-configured
/// offset when one is given, else whatever the system's local time zone says
/// (which may be nothing, for ambiguous or non-existent local times).
pub fn resolve_offset(dt: &CivilDateTime, tz_offset: Option<i32>) -> (r: Option<i32>)
    requires
        tz_offset matches Some(o) ==> -86400 < o < 86400,
    ensures
        tz_offset is Some ==> r == tz_offset,
        r matches Some(o) ==> -86400 < o < 86400,
{
    match tz_offset {
        Some(o) => Some(o),
        None => local_offset_seconds(dt),
    }
}

/// The configured zone's current offset: `None` without a zone name or when
/// the name is unknown, else seconds east of UTC, strictly within one day.
pub fn compute_tz_offset(tz: &Option<String>) -> (r: Option<i32>)
    ensures
        tz is None ==> r is None,
        r matches Some(o) ==> -86400 < o < 86400,
{
    match tz {
        Some(name) => tz_offset_seconds_now(name.as_str()),
        None => None,
    }
}

} // verus!
