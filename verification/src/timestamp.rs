//! Calendar timestamps: the wire format `%Y-%m-%dT%H:%M:%SZ`, validity,
//! ordering, and hour stepping.
use vstd::prelude::*;
use crate::text::{
    all_digits, char_is_digit, dec_val, is_ascii_digit, lemma_dec_val_upper, parse_num, pow10,
};

verus! {

/// A calendar instant, second granularity, year 0 to 9999.
#[derive(Clone, Copy, Debug, PartialEq, Eq, Structural)]
pub struct Timestamp {
    pub year: u32,
    pub month: u32,
    pub day: u32,
    pub hour: u32,
    pub minute: u32,
    pub second: u32,
}

pub open spec fn is_leap_year(y: int) -> bool {
    (y % 4 == 0 && y % 100 != 0) || y % 400 == 0
}

pub open spec fn spec_days_in_month(y: int, m: int) -> int {
    if m == 2 {
        if is_leap_year(y) {
            29
        } else {
            28
        }
    } else if m == 4 || m == 6 || m == 9 || m == 11 {
        30
    } else {
        31
    }
}

impl Timestamp {
    /// A valid calendar instant: fields in range, the day within the month.
    pub open spec fn wf(self) -> bool {
        self.year <= 9999 && 1 <= self.month <= 12 && 1 <= self.day
            && self.day <= spec_days_in_month(self.year as int, self.month as int)
            && self.hour <= 23 && self.minute <= 59 && self.second <= 59
    }

    /// Order-preserving scalar encoding; two well-formed timestamps compare
    /// chronologically exactly as their encodings compare numerically.
    pub open spec fn enc(self) -> int {
        ((((self.year as int * 12 + self.month as int) * 32 + self.day as int) * 24
            + self.hour as int) * 60 + self.minute as int) * 60 + self.second as int
    }

    /// Loose field bounds, wide enough for one step past the last
    /// well-formed instant; they keep the encoding within machine range.
    pub open spec fn bounded(self) -> bool {
        self.year <= 20000 && self.month <= 12 && self.day <= 32 && self.hour <= 24
            && self.minute <= 60 && self.second <= 60
    }
}

/// Days in a month of the proleptic Gregorian calendar.
pub fn days_in_month(y: u32, m: u32) -> (r: u32)
    ensures
        r as int == spec_days_in_month(y as int, m as int),
{
    if m == 2 {
        if (y % 4 == 0 && y % 100 != 0) || y % 400 == 0 {
            29
        } else {
            28
        }
    } else if m == 4 || m == 6 || m == 9 || m == 11 {
        30
    } else {
        31
    }
}

/// Strictly-before comparison of two bounded timestamps.
pub fn ts_lt(a: &Timestamp, b: &Timestamp) -> (r: bool)
    requires
        a.bounded(),
        b.bounded(),
    ensures
        r == (a.enc() < b.enc()),
{
    let ea: u64 = ((((a.year as u64 * 12 + a.month as u64) * 32 + a.day as u64) * 24
        + a.hour as u64) * 60 + a.minute as u64) * 60 + a.second as u64;
    let eb: u64 = ((((b.year as u64 * 12 + b.month as u64) * 32 + b.day as u64) * 24
        + b.hour as u64) * 60 + b.minute as u64) * 60 + b.second as u64;
    ea < eb
}

/// At-or-before comparison of two bounded timestamps.
pub fn ts_le(a: &Timestamp, b: &Timestamp) -> (r: bool)
    requires
        a.bounded(),
        b.bounded(),
    ensures
        r == (a.enc() <= b.enc()),
{
    !ts_lt(b, a)
}

/// The wire timestamp format: `YYYY-MM-DDTHH:MM:SSZ`, twenty characters,
/// zero-padded decimal fields, a valid Gregorian calendar date.
pub open spec fn spec_parse_ts(s: Seq<char>) -> Option<Timestamp> {
    if s.len() == 20 && s[4] == '-' && s[7] == '-' && s[10] == 'T' && s[13] == ':'
        && s[16] == ':' && s[19] == 'Z' && all_digits(s.subrange(0, 4))
        && all_digits(s.subrange(5, 7)) && all_digits(s.subrange(8, 10))
        && all_digits(s.subrange(11, 13)) && all_digits(s.subrange(14, 16))
        && all_digits(s.subrange(17, 19)) {
        let t = Timestamp {
            year: dec_val(s.subrange(0, 4)) as u32,
            month: dec_val(s.subrange(5, 7)) as u32,
            day: dec_val(s.subrange(8, 10)) as u32,
            hour: dec_val(s.subrange(11, 13)) as u32,
            minute: dec_val(s.subrange(14, 16)) as u32,
            second: dec_val(s.subrange(17, 19)) as u32,
        };
        if t.wf() {
            Some(t)
        } else {
            None
        }
    } else {
        None
    }
}

/// The sentinel instant substituted for an unparseable `published_at`:
/// strictly older than any real archive entry.
pub open spec fn sentinel_ts() -> Timestamp {
    Timestamp { year: 2015, month: 1, day: 1, hour: 0, minute: 0, second: 0 }
}

/// The timestamp an entity is ordered by: its `published_at` when that
/// parses, else the sentinel.
pub open spec fn spec_published_ts(s: Seq<char>) -> Timestamp {
    match spec_parse_ts(s) {
        Some(t) => t,
        None => sentinel_ts(),
    }
}

/// Parses the wire timestamp format (runtime form of `spec_parse_ts`).
pub fn parse_wire_ts(s: &str) -> (r: Option<Timestamp>)
    ensures
        r == spec_parse_ts(s@),
        r matches Some(t) ==> t.wf(),
{
    let slen = s.unicode_len();
    if slen != 20 {
        return None;
    }
    if !(s.get_char(4) == '-' && s.get_char(7) == '-' && s.get_char(10) == 'T'
        && s.get_char(13) == ':' && s.get_char(16) == ':' && s.get_char(19) == 'Z') {
        return None;
    }
    let o_year = parse_field(s, 0, 4);
    let o_month = parse_field(s, 5, 7);
    let o_day = parse_field(s, 8, 10);
    let o_hour = parse_field(s, 11, 13);
    let o_minute = parse_field(s, 14, 16);
    let o_second = parse_field(s, 17, 19);
    match (o_year, o_month, o_day, o_hour, o_minute, o_second) {
        (Some(year), Some(month), Some(day), Some(hour), Some(minute), Some(second)) => {
            let t = Timestamp { year, month, day, hour, minute, second };
            if year <= 9999 && 1 <= month && month <= 12 && 1 <= day
                && day <= days_in_month(year, month) && hour <= 23 && minute <= 59
                && second <= 59 {
                Some(t)
            } else {
                None
            }
        },
        _ => None,
    }
}

/// Parses the digit field of a wire timestamp lying at `[from, to)`.
fn parse_field(s: &str, from: usize, to: usize) -> (r: Option<u32>)
    requires
        from < to <= s@.len(),
        to - from <= 4,
    ensures
        r is Some <==> all_digits(s@.subrange(from as int, to as int)),
        r matches Some(n) ==> n as int == dec_val(s@.subrange(from as int, to as int)),
{
    let part = s.substring_char(from, to);
    proof {
        if all_digits(part@) {
            lemma_dec_val_upper(part@);
            assert(pow10(0) == 1);
            assert(pow10(1) == 10);
            assert(pow10(2) == 100);
            assert(pow10(3) == 1000);
            assert(pow10(4) == 10000);
        }
    }
    parse_num(part)
}

/// Substitutes the sentinel for an unparseable `published_at`.
pub fn published_ts(s: &str) -> (r: Timestamp)
    ensures
        r == spec_published_ts(s@),
        r.wf(),
{
    match parse_wire_ts(s) {
        Some(t) => t,
        None => Timestamp { year: 2015, month: 1, day: 1, hour: 0, minute: 0, second: 0 },
    }
}

} // verus!
