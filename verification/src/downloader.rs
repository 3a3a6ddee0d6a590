//! Hourly dump names: stepping a time window hour by hour and rendering
//! each hour's archive URL and local file name.
use vstd::prelude::*;
use crate::text::{append_dec_short, append_pad2, append_pad4, dec_short, pad2, pad4};
use crate::timestamp::{days_in_month, spec_days_in_month, ts_le, Timestamp};

verus! {

/// The instant one hour later, rolling over day, month and year.
pub open spec fn spec_next_hour(t: Timestamp) -> Timestamp {
    if t.hour < 23 {
        Timestamp { hour: (t.hour + 1) as u32, ..t }
    } else if t.day < spec_days_in_month(t.year as int, t.month as int) {
        Timestamp { day: (t.day + 1) as u32, hour: 0, ..t }
    } else if t.month < 12 {
        Timestamp { month: (t.month + 1) as u32, day: 1, hour: 0, ..t }
    } else {
        Timestamp { year: (t.year + 1) as u32, month: 1, day: 1, hour: 0, ..t }
    }
}

pub proof fn lemma_next_hour(t: Timestamp)
    requires
        t.wf(),
    ensures
        spec_next_hour(t).bounded(),
        spec_next_hour(t).enc() > t.enc(),
        spec_next_hour(t).year > 9999 ==> t.year == 9999 && t.month == 12 && t.day == 31
            && t.hour == 23,
        spec_next_hour(t).year <= 9999 ==> spec_next_hour(t).wf(),
{
}

/// The hours still to walk from `cur` to `end`, never negative.
pub open spec fn hours_measure(cur: Timestamp, end: Timestamp) -> int {
    if end.enc() + 1 - cur.enc() >= 0 {
        end.enc() + 1 - cur.enc()
    } else {
        0
    }
}

/// The hours of the inclusive window `[cur, end]`, in order; the run
/// also stops at the last representable instant.
pub open spec fn spec_hours(cur: Timestamp, end: Timestamp) -> Seq<Timestamp>
    decreases hours_measure(cur, end) when cur.wf() && end.wf() via spec_hours_decreases
{
    if cur.enc() > end.enc() {
        Seq::empty()
    } else if !spec_next_hour(cur).wf() {
        seq![cur]
    } else {
        seq![cur] + spec_hours(spec_next_hour(cur), end)
    }
}

#[via_fn]
proof fn spec_hours_decreases(cur: Timestamp, end: Timestamp) {
    lemma_next_hour(cur);
}

/// The file name of one hourly dump: `YYYY-MM-DD-H.json.gz`, the hour
/// unpadded.
pub open spec fn spec_fname(t: Timestamp) -> Seq<char> {
    pad4(t.year as int) + "-"@ + pad2(t.month as int) + "-"@ + pad2(t.day as int) + "-"@
        + dec_short(t.hour as int) + ".json.gz"@
}

/// The archive URL of one hourly dump.
pub open spec fn spec_url(t: Timestamp) -> Seq<char> {
    "https://data.gharchive.org/"@ + spec_fname(t)
}

/// Steps an instant one hour forward (runtime form of `spec_next_hour`).
fn next_hour(t: &Timestamp) -> (r: Timestamp)
    requires
        t.wf(),
    ensures
        r == spec_next_hour(*t),
{
    if t.hour < 23 {
        Timestamp { hour: t.hour + 1, ..*t }
    } else if t.day < days_in_month(t.year, t.month) {
        Timestamp { day: t.day + 1, hour: 0, ..*t }
    } else if t.month < 12 {
        Timestamp { month: t.month + 1, day: 1, hour: 0, ..*t }
    } else {
        Timestamp { year: t.year + 1, month: 1, day: 1, hour: 0, ..*t }
    }
}

/// Renders the dump file name of one hour (runtime form of
/// `spec_fname`).
fn render_fname(t: &Timestamp) -> (r: String)
    requires
        t.wf(),
    ensures
        r@ == spec_fname(*t),
{
    let mut out = String::new();
    append_pad4(&mut out, t.year);
    out.append("-");
    append_pad2(&mut out, t.month);
    out.append("-");
    append_pad2(&mut out, t.day);
    out.append("-");
    append_dec_short(&mut out, t.hour);
    out.append(".json.gz");
    proof {
        assert(out@ =~= spec_fname(*t));
    }
    out
}

/// Renders one hourly URL and its local file name, paired.
fn render_pair(t: &Timestamp) -> (r: (String, String))
    requires
        t.wf(),
    ensures
        r.0@ == spec_url(*t),
        r.1@ == spec_fname(*t),
{
    let fname = render_fname(t);
    let mut url = String::from_str("https://data.gharchive.org/");
    url.append(fname.as_str());
    (url, fname)
}

/// Lists, in order, the archive URL and local file name of every hour
/// in the inclusive window (runtime form of `spec_hours` with each hour
/// rendered by `spec_url` and `spec_fname`).
pub fn generate_hourly_urls(start_dt: &Timestamp, end_dt: &Timestamp) -> (r: Vec<(String, String)>)
    requires
        start_dt.wf(),
        end_dt.wf(),
    ensures
        r@.len() == spec_hours(*start_dt, *end_dt).len(),
        forall|k: int|
            0 <= k < r@.len() ==> r@[k].0@ == spec_url(#[trigger] spec_hours(*start_dt, *end_dt)[k])
                && r@[k].1@ == spec_fname(spec_hours(*start_dt, *end_dt)[k]),
{
    let ghost total = spec_hours(*start_dt, *end_dt);
    let mut out: Vec<(String, String)> = Vec::new();
    let ghost done = Seq::<Timestamp>::empty();
    let mut cur = *start_dt;
    let mut more = true;
    while more && ts_le(&cur, end_dt)
        invariant
            start_dt.wf(),
            end_dt.wf(),
            more ==> cur.wf(),
            more ==> done + spec_hours(cur, *end_dt) == total,
            !more ==> done == total,
            out@.len() == done.len(),
            forall|k: int|
                0 <= k < done.len() ==> out@[k].0@ == spec_url(#[trigger] done[k]) && out@[k].1@
                    == spec_fname(done[k]),
        decreases hours_measure(cur, *end_dt), (if more { 1int } else { 0int })
    {
        let pair = render_pair(&cur);
        out.push(pair);
        proof {
            done = done.push(cur);
            lemma_next_hour(cur);
        }
        if cur.year == 9999 && cur.month == 12 && cur.day == 31 && cur.hour == 23 {
            proof {
                assert(spec_hours(cur, *end_dt) =~= seq![cur]);
                assert(done =~= total);
            }
            more = false;
        } else {
            let nxt = next_hour(&cur);
            proof {
                assert(nxt.wf());
                assert(spec_hours(cur, *end_dt) =~= seq![cur] + spec_hours(nxt, *end_dt));
                assert(done + spec_hours(nxt, *end_dt) =~= total);
            }
            cur = nxt;
        }
    }
    proof {
        if more {
            assert(spec_hours(cur, *end_dt) =~= Seq::<Timestamp>::empty());
            assert(done =~= total);
        }
    }
    out
}

} // verus!
