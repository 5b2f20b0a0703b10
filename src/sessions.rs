//! Token statistics of sessions, and how a session compares with the rest
//! of its project.

use vstd::prelude::*;
use crate::json::str_eq;
use crate::models::{ClaudeMessage, SessionComparison, SessionTokenStats};
use crate::order::{seq_less, str_less};
use crate::sorting::{keys_ascending, sorted_values};
use crate::stats::{cap32, cap64};
use crate::timeline::{instant_key, key_of, parse_timestamp, rfc3339_instant};
use crate::usage::{count_of, extract_token_usage, or_zero, resolved_usage};

verus! {

/// Why no statistics could be made.
#[derive(Clone, Copy, Debug, PartialEq, Eq, Structural)]
pub enum StatsError {
    /// The session has no valid message.
    NoMessages,
    /// No session of the project has the id asked for.
    SessionNotFound,
}

impl StatsError {
    /// A readable description of the error.
    pub fn message(&self) -> (r: String)
        ensures
            r@ == match self {
                StatsError::NoMessages => "No valid messages found in session"@,
                StatsError::SessionNotFound => "Session not found in project"@,
            },
    {
        match self {
            StatsError::NoMessages => "No valid messages found in session".to_owned(),
            StatsError::SessionNotFound => "Session not found in project".to_owned(),
        }
    }
}

/// One of the four counters of a message's resolved usage: input, output,
/// cache creation, cache read.
pub open spec fn counter_of(m: ClaudeMessage, which: int) -> int {
    let u = resolved_usage(m);
    if which == 0 {
        count_of(u.input_tokens)
    } else if which == 1 {
        count_of(u.output_tokens)
    } else if which == 2 {
        count_of(u.cache_creation_input_tokens)
    } else {
        count_of(u.cache_read_input_tokens)
    }
}

/// The sum of one counter over messages, held at the largest `u32` at
/// every step.
pub open spec fn counter_sum(ms: Seq<ClaudeMessage>, which: int) -> int
    decreases ms.len(),
{
    if ms.len() == 0 {
        0
    } else {
        cap32(counter_sum(ms.drop_last(), which) + counter_of(ms.last(), which))
    }
}

/// `t` is the timestamp of some message, and none sorts before it.
pub open spec fn is_first_time(ms: Seq<ClaudeMessage>, t: Seq<char>) -> bool {
    &&& exists|i: int| 0 <= i < ms.len() && (#[trigger] ms[i]).timestamp@ == t
    &&& forall|j: int| 0 <= j < ms.len() ==> !seq_less((#[trigger] ms[j]).timestamp@, t)
}

/// `t` is the timestamp of some message, and none sorts after it.
pub open spec fn is_last_time(ms: Seq<ClaudeMessage>, t: Seq<char>) -> bool {
    &&& exists|i: int| 0 <= i < ms.len() && (#[trigger] ms[i]).timestamp@ == t
    &&& forall|j: int| 0 <= j < ms.len() ==> !seq_less(t, (#[trigger] ms[j]).timestamp@)
}

/// Token totals of a session's messages. The session id is the first
/// message's; totals are held at the largest `u32`.
pub fn session_token_stats(messages: &Vec<ClaudeMessage>, project_name: String) -> (r: Result<SessionTokenStats, StatsError>)
    ensures
        match r {
            Err(e) => messages@.len() == 0 && e == StatsError::NoMessages,
            Ok(s) => {
                &&& messages@.len() > 0
                &&& s.session_id == messages@[0].session_id
                &&& s.project_name == project_name
                &&& s.total_input_tokens == counter_sum(messages@, 0)
                &&& s.total_output_tokens == counter_sum(messages@, 1)
                &&& s.total_cache_creation_tokens == counter_sum(messages@, 2)
                &&& s.total_cache_read_tokens == counter_sum(messages@, 3)
                &&& s.total_tokens == cap32(cap32(cap32(s.total_input_tokens + s.total_output_tokens)
                    + s.total_cache_creation_tokens) + s.total_cache_read_tokens)
                &&& s.message_count == messages@.len()
                &&& is_first_time(messages@, s.first_message_time@)
                &&& is_last_time(messages@, s.last_message_time@)
            },
        },
{
    if messages.len() == 0 {
        return Err(StatsError::NoMessages);
    }
    let mut totals: (u32, u32, u32, u32) = (0, 0, 0, 0);
    let mut first: usize = 0;
    let mut last: usize = 0;
    let mut i: usize = 0;
    while i < messages.len()
        invariant
            0 < messages@.len(),
            i <= messages@.len(),
            totals.0 == counter_sum(messages@.subrange(0, i as int), 0),
            totals.1 == counter_sum(messages@.subrange(0, i as int), 1),
            totals.2 == counter_sum(messages@.subrange(0, i as int), 2),
            totals.3 == counter_sum(messages@.subrange(0, i as int), 3),
            first < messages@.len() && last < messages@.len(),
            i > 0 ==> first < i && last < i,
            i > 0 ==> forall|j: int| 0 <= j < i ==> !seq_less((#[trigger] messages@[j]).timestamp@, messages@[first as int].timestamp@),
            i > 0 ==> forall|j: int| 0 <= j < i ==> !seq_less(messages@[last as int].timestamp@, (#[trigger] messages@[j]).timestamp@),
        decreases messages@.len() - i,
    {
        let ghost pre = messages@.subrange(0, i as int);
        assert(messages@.subrange(0, i + 1).drop_last() =~= pre);
        let m = &messages[i];
        let u = extract_token_usage(m);
        totals.0 = add32(totals.0, or_zero(u.input_tokens));
        totals.1 = add32(totals.1, or_zero(u.output_tokens));
        totals.2 = add32(totals.2, or_zero(u.cache_creation_input_tokens));
        totals.3 = add32(totals.3, or_zero(u.cache_read_input_tokens));
        if i == 0 {
            proof {
                crate::order::lemma_less_total(m.timestamp@, m.timestamp@);
            }
            first = 0;
            last = 0;
        } else {
            let ghost f0 = messages@[first as int].timestamp@;
            let ghost l0 = messages@[last as int].timestamp@;
            if str_less(m.timestamp.as_str(), messages[first].timestamp.as_str()) {
                proof {
                    assert forall|j: int| 0 <= j < i + 1 implies !seq_less((#[trigger] messages@[j]).timestamp@, m.timestamp@) by {
                        crate::order::lemma_less_total(m.timestamp@, m.timestamp@);
                        if j < i && seq_less(messages@[j].timestamp@, m.timestamp@) {
                            crate::order::lemma_less_transitive(messages@[j].timestamp@, m.timestamp@, f0);
                        }
                    }
                }
                first = i;
            } else {
                proof {
                    crate::order::lemma_less_total(m.timestamp@, f0);
                }
            }
            if str_less(messages[last].timestamp.as_str(), m.timestamp.as_str()) {
                proof {
                    assert forall|j: int| 0 <= j < i + 1 implies !seq_less(m.timestamp@, (#[trigger] messages@[j]).timestamp@) by {
                        crate::order::lemma_less_total(m.timestamp@, m.timestamp@);
                        if j < i && seq_less(m.timestamp@, messages@[j].timestamp@) {
                            crate::order::lemma_less_transitive(l0, m.timestamp@, messages@[j].timestamp@);
                        }
                    }
                }
                last = i;
            } else {
                proof {
                    crate::order::lemma_less_total(m.timestamp@, l0);
                }
            }
        }
        i = i + 1;
    }
    assert(messages@.subrange(0, messages@.len() as int) =~= messages@);
    let total_tokens = add32(add32(add32(totals.0, totals.1), totals.2), totals.3);
    Ok(SessionTokenStats {
        session_id: messages[0].session_id.clone(),
        project_name,
        total_input_tokens: totals.0,
        total_output_tokens: totals.1,
        total_cache_creation_tokens: totals.2,
        total_cache_read_tokens: totals.3,
        total_tokens,
        message_count: messages.len(),
        first_message_time: messages[first].timestamp.clone(),
        last_message_time: messages[last].timestamp.clone(),
    })
}

fn add32(a: u32, b: u32) -> (r: u32)
    ensures
        r == cap32(a + b),
{
    if a > u32::MAX - b { u32::MAX } else { a + b }
}

impl SessionTokenStats {
    /// A copy of these statistics.
    pub fn copy(&self) -> (r: SessionTokenStats)
        ensures
            r == *self,
    {
        SessionTokenStats {
            session_id: self.session_id.clone(),
            project_name: self.project_name.clone(),
            total_input_tokens: self.total_input_tokens,
            total_output_tokens: self.total_output_tokens,
            total_cache_creation_tokens: self.total_cache_creation_tokens,
            total_cache_read_tokens: self.total_cache_read_tokens,
            total_tokens: self.total_tokens,
            message_count: self.message_count,
            first_message_time: self.first_message_time.clone(),
            last_message_time: self.last_message_time.clone(),
        }
    }
}

/// A session keyed for most tokens first.
pub open spec fn token_key(s: SessionTokenStats) -> (i128, SessionTokenStats) {
    (-(s.total_tokens as int) as i128, s)
}

/// The sessions of a project, most tokens first.
pub fn project_token_stats(sessions: &Vec<SessionTokenStats>) -> (r: Vec<SessionTokenStats>)
    ensures
        exists|s: Seq<(i128, SessionTokenStats)>|
            keys_ascending(s)
            && s.to_multiset() == sessions@.map_values(|x: SessionTokenStats| token_key(x)).to_multiset()
            && r@ == s.map_values(|p: (i128, SessionTokenStats)| p.1),
{
    let mut keyed: Vec<(i128, SessionTokenStats)> = Vec::new();
    let mut i: usize = 0;
    while i < sessions.len()
        invariant
            i <= sessions@.len(),
            keyed@ == sessions@.map_values(|x: SessionTokenStats| token_key(x)).subrange(0, i as int),
        decreases sessions@.len() - i,
    {
        keyed.push((-(sessions[i].total_tokens as i128), sessions[i].copy()));
        assert(keyed@ =~= sessions@.map_values(|x: SessionTokenStats| token_key(x)).subrange(0, i + 1));
        i = i + 1;
    }
    assert(keyed@ =~= sessions@.map_values(|x: SessionTokenStats| token_key(x)));
    sorted_values(keyed)
}

/// Whole seconds from `a` to `b`, rounded toward zero.
pub open spec fn whole_seconds(a: int, b: int) -> int {
    if b >= a {
        (b - a) / 1_000_000_000
    } else {
        -((a - b) / 1_000_000_000)
    }
}

/// The length of a session in whole seconds, where both its times parse;
/// zero otherwise.
pub open spec fn session_seconds(s: SessionTokenStats) -> int {
    match (rfc3339_instant(s.first_message_time@), rfc3339_instant(s.last_message_time@)) {
        (Some(f), Some(l)) => whole_seconds(instant_key(f), instant_key(l)),
        _ => 0,
    }
}

fn seconds_of(s: &SessionTokenStats) -> (r: i128)
    ensures
        r == session_seconds(*s),
        -100_000_000_000_000_000_000 <= r <= 100_000_000_000_000_000_000,
{
    match (parse_timestamp(s.first_message_time.as_str()), parse_timestamp(s.last_message_time.as_str())) {
        (Some(f), Some(l)) => {
            let a = key_of(&f);
            let b = key_of(&l);
            if b >= a {
                (b - a) / 1_000_000_000
            } else {
                -((a - b) / 1_000_000_000)
            }
        },
        _ => 0,
    }
}

/// A session keyed for longest first.
pub open spec fn duration_key(s: SessionTokenStats) -> (i128, SessionTokenStats) {
    ((-session_seconds(s)) as i128, s)
}

/// `pos` is the first position in `s` of a session with id `id`.
pub open spec fn first_position(s: Seq<SessionTokenStats>, id: Seq<char>, pos: int) -> bool {
    0 <= pos < s.len() && s[pos].session_id@ == id && forall|j: int| 0 <= j < pos ==> (#[trigger] s[j]).session_id@ != id
}

fn position_of(s: &Vec<SessionTokenStats>, id: &String) -> (r: Option<usize>)
    ensures
        match r {
            Some(p) => first_position(s@, id@, p as int),
            None => forall|j: int| 0 <= j < s@.len() ==> (#[trigger] s@[j]).session_id@ != id@,
        },
{
    let mut i: usize = 0;
    while i < s.len()
        invariant
            i <= s@.len(),
            forall|j: int| 0 <= j < i ==> (#[trigger] s@[j]).session_id@ != id@,
        decreases s@.len() - i,
    {
        if str_eq(s[i].session_id.as_str(), id.as_str()) {
            return Some(i);
        }
        i = i + 1;
    }
    None
}

/// The sum of the sessions' tokens, held at the largest `u64`.
pub open spec fn tokens_sum(s: Seq<SessionTokenStats>) -> int
    decreases s.len(),
{
    if s.len() == 0 { 0 } else { cap64(tokens_sum(s.drop_last()) + s.last().total_tokens) }
}

/// The sum of the sessions' message counts, held at the largest `u64`.
pub open spec fn messages_sum(s: Seq<SessionTokenStats>) -> int
    decreases s.len(),
{
    if s.len() == 0 { 0 } else { cap64(messages_sum(s.drop_last()) + s.last().message_count) }
}

/// Compares the session `session_id` with the sessions of its project,
/// given most tokens first: its share of tokens and messages, its rank by
/// tokens (its place in the list), its rank by length (longest first),
/// and whether it has more tokens than the average session.
pub fn session_comparison(session_id: &String, sessions: &Vec<SessionTokenStats>) -> (r: Result<SessionComparison, StatsError>)
    ensures
        match r {
            Err(e) => e == StatsError::SessionNotFound
                && forall|j: int| 0 <= j < sessions@.len() ==> (#[trigger] sessions@[j]).session_id@ != session_id@,
            Ok(c) => {
                let target = sessions@[c.rank_by_tokens - 1];
                &&& first_position(sessions@, session_id@, c.rank_by_tokens - 1)
                &&& c.session_id == *session_id
                &&& c.session_tokens == target.total_tokens
                &&& c.session_messages == target.message_count
                &&& c.project_tokens == tokens_sum(sessions@)
                &&& c.project_messages == messages_sum(sessions@)
                &&& c.is_above_average == (target.total_tokens > tokens_sum(sessions@) / sessions@.len() as int)
                &&& exists|s: Seq<(i128, SessionTokenStats)>|
                    keys_ascending(s)
                    && s.to_multiset() == sessions@.map_values(|x: SessionTokenStats| duration_key(x)).to_multiset()
                    && first_position(s.map_values(|p: (i128, SessionTokenStats)| p.1), session_id@, c.rank_by_duration - 1)
            },
        },
{
    let pos = match position_of(sessions, session_id) {
        Some(p) => p,
        None => return Err(StatsError::SessionNotFound),
    };
    let mut project_tokens: u64 = 0;
    let mut project_messages: u64 = 0;
    let mut keyed: Vec<(i128, SessionTokenStats)> = Vec::new();
    let mut i: usize = 0;
    while i < sessions.len()
        invariant
            i <= sessions@.len(),
            project_tokens == tokens_sum(sessions@.subrange(0, i as int)),
            project_messages == messages_sum(sessions@.subrange(0, i as int)),
            keyed@ == sessions@.map_values(|x: SessionTokenStats| duration_key(x)).subrange(0, i as int),
        decreases sessions@.len() - i,
    {
        assert(sessions@.subrange(0, i + 1).drop_last() =~= sessions@.subrange(0, i as int));
        let t = sessions[i].total_tokens as u64;
        project_tokens = if project_tokens > u64::MAX - t { u64::MAX } else { project_tokens + t };
        let mc = sessions[i].message_count as u64;
        project_messages = if project_messages > u64::MAX - mc { u64::MAX } else { project_messages + mc };
        let secs = seconds_of(&sessions[i]);
        keyed.push((-secs, sessions[i].copy()));
        assert(keyed@ =~= sessions@.map_values(|x: SessionTokenStats| duration_key(x)).subrange(0, i + 1));
        i = i + 1;
    }
    assert(sessions@.subrange(0, sessions@.len() as int) =~= sessions@);
    assert(keyed@ =~= sessions@.map_values(|x: SessionTokenStats| duration_key(x)));
    let ghost all = keyed@;
    let by_duration = sorted_values(keyed);
    let rank_by_duration = match position_of(&by_duration, session_id) {
        Some(p) => p + 1,
        None => {
            proof {
                let s = choose|s: Seq<(i128, SessionTokenStats)>|
                    keys_ascending(s) && s.to_multiset() == all.to_multiset()
                    && by_duration@ == s.map_values(|p: (i128, SessionTokenStats)| p.1);
                vstd::seq_lib::to_multiset_contains(all, all[pos as int]);
                vstd::seq_lib::to_multiset_contains(s, all[pos as int]);
                assert(all.contains(all[pos as int]));
                let k = choose|k: int| 0 <= k < s.len() && s[k] == all[pos as int];
                assert(by_duration@[k].session_id@ == session_id@);
            }
            1
        },
    };
    let target = &sessions[pos];
    let avg = project_tokens / sessions.len() as u64;
    Ok(SessionComparison {
        session_id: session_id.clone(),
        session_tokens: target.total_tokens as u64,
        project_tokens,
        session_messages: target.message_count as u64,
        project_messages,
        rank_by_tokens: pos + 1,
        rank_by_duration,
        is_above_average: target.total_tokens as u64 > avg,
    })
}

} // verus!
