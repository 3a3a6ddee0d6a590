//! Time-range handling: parsing the caller's start/end strings and
//! widening the end instant to the last hour of its period.
use vstd::prelude::*;
use crate::text::{
    all_digits, dec_val, find_char_exec, find_char_from, lemma_find_char_from, parse_num,
};
use crate::timestamp::{days_in_month, spec_days_in_month, Timestamp};

verus! {

/// How precise a time string was: a bare year down to an hour.
#[derive(Clone, Copy, Debug, PartialEq, Eq, Structural)]
pub enum Precision {
    Year,
    Month,
    Day,
    Hour,
}

/// Why a time string is rejected.
#[derive(Clone, Copy, Debug, PartialEq, Eq, Structural)]
pub enum TimeError {
    BadNumber,
    BadFormat,
    BadDate,
}

/// The pieces of `s` between occurrences of `c`; at least one piece.
pub open spec fn spec_split(s: Seq<char>, c: char) -> Seq<Seq<char>>
    decreases s.len() via spec_split_decreases
{
    let d = find_char_from(s, c, 0);
    if d == s.len() {
        seq![s]
    } else {
        seq![s.subrange(0, d)] + spec_split(s.subrange(d + 1, s.len() as int), c)
    }
}

#[via_fn]
proof fn spec_split_decreases(s: Seq<char>, c: char) {
    lemma_find_char_from(s, c, 0);
}

/// The views of a run of strings.
pub open spec fn str_views(s: Seq<String>) -> Seq<Seq<char>> {
    Seq::new(s.len(), |i: int| s[i]@)
}

/// Splits at dashes (runtime form of `spec_split`).
fn split_dash(s: &str) -> (parts: Vec<String>)
    ensures
        str_views(parts@) == spec_split(s@, '-'),
        parts@.len() >= 1,
    decreases s@.len()
{
    let slen = s.unicode_len();
    let d = find_char_exec(s, '-');
    proof {
        lemma_find_char_from(s@, '-', 0);
    }
    if d == slen {
        let mut v: Vec<String> = Vec::new();
        v.push(String::from_str(s));
        proof {
            assert(str_views(v@) =~= spec_split(s@, '-'));
        }
        v
    } else {
        let head = String::from_str(s.substring_char(0, d));
        let mut rest = split_dash(s.substring_char(d + 1, slen));
        let ghost restv = rest@;
        let mut v: Vec<String> = Vec::new();
        v.push(head);
        v.append(&mut rest);
        proof {
            assert forall|k: int| 0 <= k < v@.len() implies #[trigger] str_views(v@)[k]
                == spec_split(s@, '-')[k] by {
                if k > 0 {
                    assert(v@[k] == restv[k - 1]);
                    assert(str_views(restv)[k - 1] == restv[k - 1]@);
                }
            }
            assert(str_views(v@) =~= spec_split(s@, '-'));
        }
        v
    }
}

/// A usable time part: non-empty, all digits, within machine range.
pub open spec fn part_ok(p: Seq<char>) -> bool {
    p.len() > 0 && all_digits(p) && dec_val(p) <= u32::MAX
}

/// What parsing a time string yields: its instant (missing parts filled
/// with the period's first month, day or hour) and its precision; a
/// non-numeric part, a fifth part, or an invalid calendar date is
/// rejected, in that order of checks.
pub open spec fn spec_parse_time(s: Seq<char>) -> Result<(Timestamp, Precision), TimeError> {
    let parts = spec_split(s, '-');
    if !part_ok(parts[0]) || (parts.len() > 1 && !part_ok(parts[1])) || (parts.len() > 2
        && !part_ok(parts[2])) || (parts.len() > 3 && !part_ok(parts[3])) {
        Err(TimeError::BadNumber)
    } else if parts.len() > 4 {
        Err(TimeError::BadFormat)
    } else {
        let y = dec_val(parts[0]);
        let mo = if parts.len() > 1 {
            dec_val(parts[1])
        } else {
            1
        };
        let d = if parts.len() > 2 {
            dec_val(parts[2])
        } else {
            1
        };
        let h = if parts.len() > 3 {
            dec_val(parts[3])
        } else {
            0
        };
        if y <= 9999 && 1 <= mo <= 12 && 1 <= d && d <= spec_days_in_month(y, mo) && h <= 23 {
            let t = Timestamp {
                year: y as u32,
                month: mo as u32,
                day: d as u32,
                hour: h as u32,
                minute: 0,
                second: 0,
            };
            let p = if parts.len() == 1 {
                Precision::Year
            } else if parts.len() == 2 {
                Precision::Month
            } else if parts.len() == 3 {
                Precision::Day
            } else {
                Precision::Hour
            };
            Ok((t, p))
        } else {
            Err(TimeError::BadDate)
        }
    }
}

/// Parses a `yyyy[-mm[-dd[-hh]]]` time string into an instant and its
/// precision (runtime form of `spec_parse_time`).
pub fn parse_time_str(tstr: &str) -> (r: Result<(Timestamp, Precision), TimeError>)
    ensures
        r == spec_parse_time(tstr@),
        r matches Ok(p) ==> p.0.wf(),
{
    let parts = split_dash(tstr);
    let ghost pv = str_views(parts@);
    let mut nums: Vec<u32> = Vec::new();
    let mut k: usize = 0;
    let bound = if parts.len() < 4 {
        parts.len()
    } else {
        4
    };
    while k < bound
        invariant
            k <= bound,
            bound <= parts@.len(),
            bound == if parts@.len() < 4 { parts@.len() as int } else { 4 },
            pv == str_views(parts@),
            pv == spec_split(tstr@, '-'),
            pv.len() >= 1,
            nums@.len() == k,
            forall|j: int| 0 <= j < k ==> part_ok(#[trigger] pv[j]) && nums@[j] as int == dec_val(
                pv[j]),
        decreases bound - k
    {
        match parse_num(parts[k].as_str()) {
            Some(n) => {
                nums.push(n);
            },
            None => {
                assert(!part_ok(pv[k as int]));
                return Err(TimeError::BadNumber);
            },
        }
        k += 1;
    }
    if parts.len() > 4 {
        return Err(TimeError::BadFormat);
    }
    let y = nums[0];
    let mo = if nums.len() > 1 {
        nums[1]
    } else {
        1
    };
    let d = if nums.len() > 2 {
        nums[2]
    } else {
        1
    };
    let h = if nums.len() > 3 {
        nums[3]
    } else {
        0
    };
    if y <= 9999 && 1 <= mo && mo <= 12 && 1 <= d && d <= days_in_month(y, mo) && h <= 23 {
        let t = Timestamp { year: y, month: mo, day: d, hour: h, minute: 0, second: 0 };
        let p = if parts.len() == 1 {
            Precision::Year
        } else if parts.len() == 2 {
            Precision::Month
        } else if parts.len() == 3 {
            Precision::Day
        } else {
            Precision::Hour
        };
        Ok((t, p))
    } else {
        Err(TimeError::BadDate)
    }
}

/// The last in-range instant of the period `t` names at precision `p`:
/// a year ends at December 31, 23:00; a month at its last day, 23:00;
/// a day at 23:00; an hour is kept as it is.
pub open spec fn spec_adjust_end(t: Timestamp, p: Precision) -> Timestamp {
    match p {
        Precision::Year => Timestamp {
            year: t.year,
            month: 12,
            day: 31,
            hour: 23,
            minute: 0,
            second: 0,
        },
        Precision::Month => Timestamp {
            year: t.year,
            month: t.month,
            day: spec_days_in_month(t.year as int, t.month as int) as u32,
            hour: 23,
            minute: 0,
            second: 0,
        },
        Precision::Day => Timestamp {
            year: t.year,
            month: t.month,
            day: t.day,
            hour: 23,
            minute: 0,
            second: 0,
        },
        Precision::Hour => t,
    }
}

/// Widens an end instant to the close of its period (runtime form of
/// `spec_adjust_end`).
pub fn adjust_end_time(dt: &Timestamp, precision: &Precision) -> (r: Timestamp)
    ensures
        r == spec_adjust_end(*dt, *precision),
        dt.wf() ==> r.wf(),
{
    match precision {
        Precision::Year => Timestamp {
            year: dt.year,
            month: 12,
            day: 31,
            hour: 23,
            minute: 0,
            second: 0,
        },
        Precision::Month => Timestamp {
            year: dt.year,
            month: dt.month,
            day: days_in_month(dt.year, dt.month),
            hour: 23,
            minute: 0,
            second: 0,
        },
        Precision::Day => Timestamp {
            year: dt.year,
            month: dt.month,
            day: dt.day,
            hour: 23,
            minute: 0,
            second: 0,
        },
        Precision::Hour => *dt,
    }
}

} // verus!
