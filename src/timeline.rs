//! Points in time, and the active time of a session.

use vstd::prelude::*;
use chrono::{Datelike, Timelike};
use crate::sorting::{keys_ascending, sort_by_key};

verus! {

/// A point in time, in UTC, with the calendar facts the statistics use.
#[derive(Clone, Debug)]
pub struct Instant {
    /// Whole seconds since the Unix epoch.
    pub seconds: i64,
    /// Nanoseconds past `seconds` (above a billion only in a leap second).
    pub nanos: u32,
    /// Hour of the day, 0 to 23.
    pub hour: u8,
    /// Day of the week, 0 (Sunday) to 6.
    pub weekday: u8,
    /// The calendar date, `YYYY-MM-DD`.
    pub date: String,
    /// The time in RFC 3339 form.
    pub rfc3339: String,
}

/// What an RFC 3339 text denotes, where it is one.
pub uninterp spec fn rfc3339_instant(s: Seq<char>) -> Option<Instant>;

/// Relies on `chrono::DateTime::parse_from_rfc3339`, converted to UTC:
/// `timestamp`, `timestamp_subsec_nanos`, `hour`, the weekday counted from
/// Sunday, the date formatted as `%Y-%m-%d`, and `to_rfc3339`.
#[verifier::external_body]
pub(crate) fn parse_timestamp(s: &str) -> (r: Option<Instant>)
    ensures
        r == rfc3339_instant(s@),
        r matches Some(t) ==> t.hour < 24 && t.weekday < 7 && t.nanos < 2_000_000_000,
{
    match chrono::DateTime::parse_from_rfc3339(s) {
        Ok(d) => {
            let u = d.with_timezone(&chrono::Utc);
            Some(Instant {
                seconds: u.timestamp(),
                nanos: u.timestamp_subsec_nanos(),
                hour: u.hour() as u8,
                weekday: u.weekday().num_days_from_sunday() as u8,
                date: u.format("%Y-%m-%d").to_string(),
                rfc3339: u.to_rfc3339(),
            })
        },
        Err(_) => None,
    }
}

/// Nanoseconds since the epoch.
pub open spec fn instant_key(t: Instant) -> int {
    t.seconds as int * 1_000_000_000 + t.nanos as int
}

/// Nanoseconds since the epoch.
pub fn key_of(t: &Instant) -> (k: i128)
    requires
        t.nanos < 2_000_000_000,
    ensures
        k == instant_key(*t),
        key_in_range(k as int),
{
    assert(-0x8000_0000_0000_0000 * 1_000_000_000 <= t.seconds as int * 1_000_000_000 <= 0x7fff_ffff_ffff_ffff * 1_000_000_000) by(nonlinear_arith)
        requires -0x8000_0000_0000_0000 <= t.seconds as int <= 0x7fff_ffff_ffff_ffff;
    t.seconds as i128 * 1_000_000_000 + t.nanos as i128
}

/// The range of keys an instant can have.
pub open spec fn key_in_range(k: int) -> bool {
    -0x8000_0000_0000_0000 * 1_000_000_000 <= k <= 0x7fff_ffff_ffff_ffff * 1_000_000_000 + 2_000_000_000
}

/// Nanoseconds in a minute.
pub const NANOS_PER_MINUTE: i128 = 60_000_000_000;

/// Nanoseconds in a day.
pub const NANOS_PER_DAY: i128 = 86_400_000_000_000;

/// A gap longer than this many minutes ends an active period.
pub const BREAK_THRESHOLD_MINUTES: i128 = 120;

/// Whole minutes from `a` to a later `b`.
pub open spec fn whole_minutes(a: int, b: int) -> int {
    (b - a) / NANOS_PER_MINUTE as int
}

/// The length of a period: its whole minutes, and at least one.
pub open spec fn period_minutes(start: int, end: int) -> int {
    if whole_minutes(start, end) < 1 {
        1
    } else {
        whole_minutes(start, end)
    }
}

/// The minutes of the closed periods, and the start of the open one, once
/// the timestamps up to index `i` are seen.
pub open spec fn segment_state(ts: Seq<int>, i: int) -> (int, int)
    decreases i,
{
    if i <= 0 {
        (0, ts[0])
    } else {
        let (closed, start) = segment_state(ts, i - 1);
        if whole_minutes(ts[i - 1], ts[i]) > BREAK_THRESHOLD_MINUTES {
            (closed + period_minutes(start, ts[i - 1]), ts[i])
        } else {
            (closed, start)
        }
    }
}

/// The active minutes of ascending timestamps: they are split into periods
/// wherever two neighbours lie more than the threshold apart, and each
/// period counts its whole minutes, at least one. No timestamps, no time.
pub open spec fn active_minutes(ts: Seq<int>) -> int {
    if ts.len() == 0 {
        0
    } else {
        segment_state(ts, ts.len() - 1).0 + period_minutes(segment_state(ts, ts.len() - 1).1, ts.last())
    }
}

/// `a + b`, held at the largest `u64`.
pub open spec fn capped(a: int) -> int {
    if a > u64::MAX {
        u64::MAX as int
    } else {
        a
    }
}

proof fn lemma_segment_bounds(ts: Seq<int>, i: int)
    requires
        0 <= i < ts.len(),
    ensures
        segment_state(ts, i).0 >= 0,
        exists|j: int| 0 <= j <= i && segment_state(ts, i).1 == ts[j],
    decreases i,
{
    if i > 0 {
        lemma_segment_bounds(ts, i - 1);
    }
}

fn minutes_from(a: i128, b: i128) -> (m: u64)
    requires
        key_in_range(a as int),
        key_in_range(b as int),
        a <= b,
    ensures
        m == period_minutes(a as int, b as int),
{
    let w = (b - a) / NANOS_PER_MINUTE;
    if w < 1 {
        1
    } else {
        w as u64
    }
}

/// Active minutes of ascending timestamps, held at the largest `u64`.
pub fn active_minutes_sorted(keys: &Vec<i128>) -> (r: u64)
    requires
        keys_ascending_plain(keys@),
        forall|i: int| 0 <= i < keys@.len() ==> key_in_range(#[trigger] keys@[i] as int),
    ensures
        r == capped(active_minutes(keys@.map_values(|k: i128| k as int))),
{
    let ghost ts = keys@.map_values(|k: i128| k as int);
    if keys.len() == 0 {
        return 0;
    }
    let mut closed: u64 = 0;
    let mut start: i128 = keys[0];
    let mut i: usize = 1;
    while i < keys.len()
        invariant
            ts == keys@.map_values(|k: i128| k as int),
            keys_ascending_plain(keys@),
            forall|i: int| 0 <= i < keys@.len() ==> key_in_range(#[trigger] keys@[i] as int),
            1 <= i <= keys@.len(),
            closed == capped(segment_state(ts, i - 1).0),
            start == segment_state(ts, i - 1).1,
            start <= keys@[i - 1],
            key_in_range(start as int),
        decreases keys@.len() - i,
    {
        proof {
            lemma_segment_bounds(ts, i - 1);
        }
        let gap = (keys[i] - keys[i - 1]) / NANOS_PER_MINUTE;
        if gap > BREAK_THRESHOLD_MINUTES {
            let m = minutes_from(start, keys[i - 1]);
            closed = if closed > u64::MAX - m { u64::MAX } else { closed + m };
            start = keys[i];
        }
        i = i + 1;
    }
    proof {
        lemma_segment_bounds(ts, keys@.len() - 1);
    }
    let m = minutes_from(start, keys[keys.len() - 1]);
    if closed > u64::MAX - m { u64::MAX } else { closed + m }
}

/// The keys ascend.
pub open spec fn keys_ascending_plain(s: Seq<i128>) -> bool {
    forall|i: int, j: int| 0 <= i < j < s.len() ==> #[trigger] s[i] <= #[trigger] s[j]
}

/// The times of a session as sort keys.
pub open spec fn keyed_times(times: Seq<Instant>) -> Seq<(i128, ())> {
    times.map_values(|t: Instant| (instant_key(t) as i128, ()))
}

/// `r` is the active minutes of `times` once put in ascending order, held
/// at the largest `u64`.
pub open spec fn is_active_minutes(times: Seq<Instant>, r: int) -> bool {
    exists|s: Seq<(i128, ())>|
        keys_ascending(s) && s.to_multiset() == keyed_times(times).to_multiset()
        && r == capped(active_minutes(s.map_values(|p: (i128, ())| p.0 as int)))
}

/// The active minutes of a session whose messages carry these times, in
/// whatever order they come, held at the largest `u64`.
pub fn session_active_minutes(times: &Vec<Instant>) -> (r: u64)
    requires
        forall|i: int| 0 <= i < times@.len() ==> #[trigger] times@[i].nanos < 2_000_000_000,
    ensures
        is_active_minutes(times@, r as int),
{
    let mut keyed: Vec<(i128, ())> = Vec::new();
    let mut i: usize = 0;
    while i < times.len()
        invariant
            forall|i: int| 0 <= i < times@.len() ==> #[trigger] times@[i].nanos < 2_000_000_000,
            i <= times@.len(),
            keyed@ == keyed_times(times@).subrange(0, i as int),
            forall|k: int| 0 <= k < i ==> key_in_range(instant_key(#[trigger] times@[k])),
        decreases times@.len() - i,
    {
        let k = key_of(&times[i]);
        keyed.push((k, ()));
        assert(keyed@ =~= keyed_times(times@).subrange(0, i + 1));
        i = i + 1;
    }
    assert(keyed@ =~= keyed_times(times@));
    let ghost all = keyed@;
    let sorted = sort_by_key(keyed);
    let mut keys: Vec<i128> = Vec::new();
    let mut j: usize = 0;
    while j < sorted.len()
        invariant
            j <= sorted@.len(),
            keys@ == sorted@.map_values(|p: (i128, ())| p.0).subrange(0, j as int),
        decreases sorted@.len() - j,
    {
        keys.push(sorted[j].0);
        assert(keys@ =~= sorted@.map_values(|p: (i128, ())| p.0).subrange(0, j + 1));
        j = j + 1;
    }
    assert(keys@ =~= sorted@.map_values(|p: (i128, ())| p.0));
    proof {
        assert forall|k: int| 0 <= k < keys@.len() implies key_in_range(#[trigger] keys@[k] as int) by {
            vstd::seq_lib::to_multiset_contains(sorted@, sorted@[k]);
            vstd::seq_lib::to_multiset_contains(all, sorted@[k]);
            assert(sorted@.contains(sorted@[k]));
            let idx = choose|idx: int| 0 <= idx < all.len() && all[idx] == sorted@[k];
            assert(all[idx].0 == instant_key(times@[idx]));
        }
        assert(keys@.map_values(|k: i128| k as int) =~= sorted@.map_values(|p: (i128, ())| p.0 as int));
    }
    let r = active_minutes_sorted(&keys);
    assert(keys_ascending(sorted@) && sorted@.to_multiset() == keyed_times(times@).to_multiset()
        && r == capped(active_minutes(sorted@.map_values(|p: (i128, ())| p.0 as int))));
    r
}

} // verus!
