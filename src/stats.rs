//! Aggregating messages into daily, hourly, per-tool, per-model and
//! per-project statistics.

use vstd::prelude::*;
use crate::json::Json;
use crate::keyed::{find_key, lemma_lookup_push, lemma_lookup_update, lookup, unique_keys};
use crate::models::{ClaudeMessage, TokenDistribution};
use crate::timeline::{instant_key, is_active_minutes, key_of, parse_timestamp, rfc3339_instant, session_active_minutes, Instant, NANOS_PER_DAY};
use crate::models::{ActivityHeatmap, DailyStats, DateRange, GlobalStatsSummary, ModelStats, ProjectRanking, ProjectStatsSummary, ToolUsageStats};
use crate::sorting::{keys_ascending, sorted_values};
use crate::order::{lemma_less_total, seq_less, str_less};
use crate::recent::lemma_not_less_transitive;
use vstd::seq_lib::{to_multiset_build, to_multiset_insert, to_multiset_len};
use vstd::multiset::lemma_multiset_empty_len;
use crate::usage::{count_of, extract_token_usage, or_zero, resolved_usage, str_is, usage_total};

verus! {

/// `x`, held at the largest `u64`.
pub open spec fn cap64(x: int) -> int {
    if x > u64::MAX { u64::MAX as int } else { x }
}

/// `x`, held at the largest `u32`.
pub open spec fn cap32(x: int) -> int {
    if x > u32::MAX { u32::MAX as int } else { x }
}

/// `x`, held at the largest `usize`.
pub open spec fn capsize(x: int) -> int {
    if x > usize::MAX { usize::MAX as int } else { x }
}

fn add64(a: u64, b: u64) -> (r: u64)
    ensures
        r == cap64(a + b),
{
    if a > u64::MAX - b { u64::MAX } else { a + b }
}

fn add32(a: u32, b: u32) -> (r: u32)
    ensures
        r == cap32(a + b),
{
    if a > u32::MAX - b { u32::MAX } else { a + b }
}

fn addsize(a: usize, b: usize) -> (r: usize)
    ensures
        r == capsize(a + b),
{
    if a > usize::MAX - b { usize::MAX } else { a + b }
}

/// The number of hour-by-weekday cells.
pub const HEATMAP_CELLS: usize = 168;

/// The cell of an hour (0 to 23) and a weekday (0 to 6).
pub open spec fn cell_index(hour: int, weekday: int) -> int {
    hour * 7 + weekday
}

/// Totals of one calendar day, with the day's number for ordering.
#[derive(Clone, Copy, Debug)]
pub struct DayTotals {
    pub total_tokens: u64,
    pub input_tokens: u64,
    pub output_tokens: u64,
    pub message_count: usize,
}

/// Totals of one model.
#[derive(Clone, Copy, Debug)]
pub struct ModelTotals {
    pub message_count: u32,
    pub token_count: u64,
    pub input_tokens: u64,
    pub output_tokens: u64,
    pub cache_creation_tokens: u64,
    pub cache_read_tokens: u64,
}

/// The tokens of a message, all four counters together.
pub open spec fn message_tokens(m: ClaudeMessage) -> int {
    usage_total(resolved_usage(m))
}

/// A day's totals after one more message at `t`.
pub open spec fn day_added(o: Option<DayTotals>, t: Instant, m: ClaudeMessage) -> DayTotals {
    let d = match o {
        Some(d) => d,
        None => DayTotals { total_tokens: 0, input_tokens: 0, output_tokens: 0, message_count: 0 },
    };
    DayTotals {
        total_tokens: cap64(d.total_tokens + message_tokens(m)) as u64,
        input_tokens: cap64(d.input_tokens + count_of(resolved_usage(m).input_tokens)) as u64,
        output_tokens: cap64(d.output_tokens + count_of(resolved_usage(m).output_tokens)) as u64,
        message_count: capsize(d.message_count + 1) as usize,
    }
}

/// A model's totals after one more message.
pub open spec fn model_added(o: Option<ModelTotals>, m: ClaudeMessage) -> ModelTotals {
    let d = match o {
        Some(d) => d,
        None => ModelTotals {
            message_count: 0,
            token_count: 0,
            input_tokens: 0,
            output_tokens: 0,
            cache_creation_tokens: 0,
            cache_read_tokens: 0,
        },
    };
    let u = resolved_usage(m);
    ModelTotals {
        message_count: cap32(d.message_count + 1) as u32,
        token_count: cap64(d.token_count + message_tokens(m)) as u64,
        input_tokens: cap64(d.input_tokens + count_of(u.input_tokens)) as u64,
        output_tokens: cap64(d.output_tokens + count_of(u.output_tokens)) as u64,
        cache_creation_tokens: cap64(d.cache_creation_tokens + count_of(u.cache_creation_input_tokens)) as u64,
        cache_read_tokens: cap64(d.cache_read_tokens + count_of(u.cache_read_input_tokens)) as u64,
    }
}

/// A tool's (uses, successes) after one more use.
pub open spec fn tool_bumped(o: Option<(u32, u32)>, success: bool) -> (u32, u32) {
    let (u, s) = match o {
        Some(p) => p,
        None => (0u32, 0u32),
    };
    (cap32(u + 1) as u32, if success { cap32(s + 1) as u32 } else { s })
}

/// A content item that records a call of the tool named `k`.
pub open spec fn is_tool_item(item: Json, k: Seq<char>) -> bool {
    item.field_text("type"@) == Some("tool_use"@) && item.field_text("name"@) == Some(k)
}

/// A tool's counts after the content items: each call of it counts as a
/// use and a success.
pub open spec fn after_items(o: Option<(u32, u32)>, items: Seq<Json>, k: Seq<char>) -> Option<(u32, u32)>
    decreases items.len(),
{
    if items.len() == 0 {
        o
    } else if is_tool_item(items.last(), k) {
        Some(tool_bumped(after_items(o, items.drop_last(), k), true))
    } else {
        after_items(o, items.drop_last(), k)
    }
}

/// The content items of an assistant message whose content is an array.
pub open spec fn assistant_items(m: ClaudeMessage) -> Seq<Json> {
    if m.message_type@ == "assistant"@ {
        match m.content {
            Some(Json::Array(items)) => items@,
            _ => Seq::empty(),
        }
    } else {
        Seq::empty()
    }
}

/// The tool result reports an error.
pub open spec fn result_is_error(m: ClaudeMessage) -> bool {
    match m.tool_use_result {
        Some(r) => r.field("is_error"@) == Some(Json::Bool(true)),
        None => false,
    }
}

/// A tool's counts after a message: the calls in an assistant message's
/// content, each a use and a success; then a top-level invocation naming
/// it, a use, and a success when a tool result is present and reports no
/// error.
pub open spec fn tool_after(o: Option<(u32, u32)>, m: ClaudeMessage, k: Seq<char>) -> Option<(u32, u32)> {
    let o1 = after_items(o, assistant_items(m), k);
    let named = match m.tool_use {
        Some(t) => t.field_text("name"@) == Some(k),
        None => false,
    };
    if named {
        Some(tool_bumped(o1, m.tool_use_result is Some && !result_is_error(m)))
    } else {
        o1
    }
}

/// What the statistics pass gathers over sessions and projects.
pub struct Aggregate {
    pub total_sessions: u64,
    pub total_messages: u64,
    pub distribution: TokenDistribution,
    /// Per hour and weekday: message count and tokens.
    pub cells: Vec<(u32, u64)>,
    pub daily: Vec<(String, DayTotals)>,
    /// Per tool: uses and successes.
    pub tools: Vec<(String, (u32, u32))>,
    pub models: Vec<(String, ModelTotals)>,
    /// The active minutes of each finished session that had timed messages.
    pub durations: Vec<u64>,
    pub first: Option<Instant>,
    pub last: Option<Instant>,
    /// The message times of the session under way.
    pub session_times: Vec<Instant>,
    /// Counters of the project under way.
    pub project_sessions: u32,
    pub project_messages: u32,
    pub project_tokens: u64,
    /// The projects finished so far.
    pub projects: Vec<ProjectRanking>,
}

/// A valid instant, as the parser hands them out.
pub open spec fn good_instant(t: Instant) -> bool {
    t.hour < 24 && t.weekday < 7 && t.nanos < 2_000_000_000
}

impl Aggregate {
    pub open spec fn wf(&self) -> bool {
        &&& self.cells@.len() == HEATMAP_CELLS
        &&& unique_keys(self.daily@)
        &&& unique_keys(self.tools@)
        &&& unique_keys(self.models@)
        &&& forall|i: int| 0 <= i < self.session_times@.len() ==> good_instant(#[trigger] self.session_times@[i])
        &&& self.first matches Some(t) ==> good_instant(t)
        &&& self.last matches Some(t) ==> good_instant(t)
    }

    /// Nothing gathered yet.
    pub fn new() -> (r: Aggregate)
        ensures
            r.wf(),
            r.total_sessions == 0 && r.total_messages == 0,
            r.distribution.input == 0 && r.distribution.output == 0,
            r.distribution.cache_creation == 0 && r.distribution.cache_read == 0,
            forall|i: int| 0 <= i < HEATMAP_CELLS ==> #[trigger] r.cells@[i] == (0u32, 0u64),
            r.daily@.len() == 0 && r.tools@.len() == 0 && r.models@.len() == 0,
            r.durations@.len() == 0 && r.session_times@.len() == 0,
            r.first is None && r.last is None,
            r.project_sessions == 0 && r.project_messages == 0 && r.project_tokens == 0,
            r.projects@.len() == 0,
    {
        let mut cells: Vec<(u32, u64)> = Vec::new();
        let mut i: usize = 0;
        while i < HEATMAP_CELLS
            invariant
                i <= HEATMAP_CELLS,
                cells@.len() == i,
                forall|j: int| 0 <= j < i ==> #[trigger] cells@[j] == (0u32, 0u64),
            decreases HEATMAP_CELLS - i,
        {
            cells.push((0, 0));
            i = i + 1;
        }
        Aggregate {
            total_sessions: 0,
            total_messages: 0,
            distribution: TokenDistribution { input: 0, output: 0, cache_creation: 0, cache_read: 0 },
            cells,
            daily: Vec::new(),
            tools: Vec::new(),
            models: Vec::new(),
            durations: Vec::new(),
            first: None,
            last: None,
            session_times: Vec::new(),
            project_sessions: 0,
            project_messages: 0,
            project_tokens: 0,
            projects: Vec::new(),
        }
    }
}

/// Counts one use of a tool.
fn record_tool(tools: &mut Vec<(String, (u32, u32))>, name: &String, success: bool)
    requires
        unique_keys(old(tools)@),
    ensures
        unique_keys(final(tools)@),
        forall|k: Seq<char>| #[trigger] lookup(final(tools)@, k) == if k == name@ {
            Some(tool_bumped(lookup(old(tools)@, k), success))
        } else {
            lookup(old(tools)@, k)
        },
{
    match find_key(tools, name.as_str()) {
        Some(i) => {
            let (u, s) = tools[i].1;
            let k = tools[i].0.clone();
            let ghost before = tools@;
            let v = (add32(u, 1), if success { add32(s, 1) } else { s });
            tools.set(i, (k, v));
            proof {
                crate::keyed::lemma_lookup_at(before, i as int);
                assert forall|key: Seq<char>| #[trigger] lookup(tools@, key) == if key == name@ {
                    Some(tool_bumped(lookup(before, key), success))
                } else {
                    lookup(before, key)
                } by {
                    lemma_lookup_update(before, i as int, k, v, key);
                }
                lemma_lookup_update(before, i as int, k, v, name@);
            }
        },
        None => {
            let ghost before = tools@;
            let k = name.clone();
            let v = (add32(0, 1), if success { add32(0, 1) } else { 0 });
            tools.push((k, v));
            proof {
                crate::keyed::lemma_lookup_absent(before, name@);
                assert forall|key: Seq<char>| #[trigger] lookup(tools@, key) == if key == name@ {
                    Some(tool_bumped(lookup(before, key), success))
                } else {
                    lookup(before, key)
                } by {
                    lemma_lookup_push(before, k, v, key);
                }
                lemma_lookup_push(before, k, v, name@);
            }
        },
    }
}

/// Counts the tool calls of one message, as `tool_after` describes.
fn record_tool_calls(tools: &mut Vec<(String, (u32, u32))>, m: &ClaudeMessage)
    requires
        unique_keys(old(tools)@),
    ensures
        unique_keys(final(tools)@),
        forall|k: Seq<char>| #[trigger] lookup(final(tools)@, k) == tool_after(lookup(old(tools)@, k), *m, k),
{
    let ghost start = tools@;
    let empty: Vec<Json> = Vec::new();
    let items: &Vec<Json> = if str_is(&m.message_type, "assistant") {
        match &m.content {
            Some(Json::Array(items)) => items,
            _ => &empty,
        }
    } else {
        &empty
    };
    assert(items@ == assistant_items(*m));
    let mut i: usize = 0;
    while i < items.len()
        invariant
            i <= items@.len(),
            unique_keys(tools@),
            forall|k: Seq<char>| #[trigger] lookup(tools@, k) == after_items(lookup(start, k), items@.subrange(0, i as int), k),
        decreases items@.len() - i,
    {
        let ghost before = tools@;
        assert(items@.subrange(0, i + 1).drop_last() =~= items@.subrange(0, i as int));
        let item = &items[i];
        let is_call = match item.get_str("type") {
            Some(t) => str_is(t, "tool_use"),
            None => false,
        };
        if is_call {
            match item.get_str("name") {
                Some(name) => {
                    record_tool(tools, name, true);
                    assert forall|k: Seq<char>| #[trigger] lookup(tools@, k) == after_items(lookup(start, k), items@.subrange(0, i + 1), k) by {
                        assert(lookup(before, k) == after_items(lookup(start, k), items@.subrange(0, i as int), k));
                    }
                },
                None => {
                    assert forall|k: Seq<char>| #[trigger] lookup(tools@, k) == after_items(lookup(start, k), items@.subrange(0, i + 1), k) by {
                        assert(lookup(before, k) == after_items(lookup(start, k), items@.subrange(0, i as int), k));
                    }
                },
            }
        } else {
            assert forall|k: Seq<char>| #[trigger] lookup(tools@, k) == after_items(lookup(start, k), items@.subrange(0, i + 1), k) by {
                assert(lookup(before, k) == after_items(lookup(start, k), items@.subrange(0, i as int), k));
            }
        }
        i = i + 1;
    }
    assert(items@.subrange(0, items@.len() as int) =~= items@);
    let ghost mid = tools@;
    match &m.tool_use {
        Some(t) => match t.get_str("name") {
            Some(name) => {
                let success = match &m.tool_use_result {
                    Some(r) => match r.get("is_error") {
                        Some(v) => match v.as_bool() {
                            Some(b) => !b,
                            None => true,
                        },
                        None => true,
                    },
                    None => false,
                };
                assert(success == (m.tool_use_result is Some && !result_is_error(*m)));
                record_tool(tools, name, success);
                assert forall|k: Seq<char>| #[trigger] lookup(tools@, k) == tool_after(lookup(start, k), *m, k) by {
                    assert(lookup(mid, k) == after_items(lookup(start, k), assistant_items(*m), k));
                }
            },
            None => {
                assert forall|k: Seq<char>| #[trigger] lookup(tools@, k) == tool_after(lookup(start, k), *m, k) by {
                    assert(lookup(mid, k) == after_items(lookup(start, k), assistant_items(*m), k));
                }
            },
        },
        None => {
            assert forall|k: Seq<char>| #[trigger] lookup(tools@, k) == tool_after(lookup(start, k), *m, k) by {
                assert(lookup(mid, k) == after_items(lookup(start, k), assistant_items(*m), k));
            }
        },
    }
}

fn record_day(daily: &mut Vec<(String, DayTotals)>, t: &Instant, m: &ClaudeMessage, tokens: u64, input: u64, output: u64)
    requires
        unique_keys(old(daily)@),
        tokens == message_tokens(*m),
        input == count_of(resolved_usage(*m).input_tokens),
        output == count_of(resolved_usage(*m).output_tokens),
    ensures
        unique_keys(final(daily)@),
        forall|k: Seq<char>| #[trigger] lookup(final(daily)@, k) == if k == t.date@ {
            Some(day_added(lookup(old(daily)@, k), *t, *m))
        } else {
            lookup(old(daily)@, k)
        },
{
    let ghost before = daily@;
    let (idx, d) = match find_key(daily, t.date.as_str()) {
        Some(i) => {
            proof {
                crate::keyed::lemma_lookup_at(before, i as int);
            }
            (Some(i), daily[i].1)
        },
        None => {
            proof {
                crate::keyed::lemma_lookup_absent(before, t.date@);
            }
            (None, DayTotals {
                total_tokens: 0,
                input_tokens: 0,
                output_tokens: 0,
                message_count: 0,
            })
        },
    };
    let v = DayTotals {
        total_tokens: add64(d.total_tokens, tokens),
        input_tokens: add64(d.input_tokens, input),
        output_tokens: add64(d.output_tokens, output),
        message_count: addsize(d.message_count, 1),
    };
    assert(v == day_added(lookup(before, t.date@), *t, *m));
    match idx {
        Some(i) => {
            let k = daily[i].0.clone();
            daily.set(i, (k, v));
            proof {
                assert forall|key: Seq<char>| #[trigger] lookup(daily@, key) == if key == t.date@ {
                    Some(day_added(lookup(before, key), *t, *m))
                } else {
                    lookup(before, key)
                } by {
                    lemma_lookup_update(before, i as int, k, v, key);
                }
                lemma_lookup_update(before, i as int, k, v, t.date@);
            }
        },
        None => {
            let k = t.date.clone();
            daily.push((k, v));
            proof {
                assert forall|key: Seq<char>| #[trigger] lookup(daily@, key) == if key == t.date@ {
                    Some(day_added(lookup(before, key), *t, *m))
                } else {
                    lookup(before, key)
                } by {
                    lemma_lookup_push(before, k, v, key);
                }
                lemma_lookup_push(before, k, v, t.date@);
            }
        },
    }
}

fn record_model(models: &mut Vec<(String, ModelTotals)>, name: &String, m: &ClaudeMessage, tokens: u64, u: &crate::models::TokenUsage)
    requires
        unique_keys(old(models)@),
        tokens == message_tokens(*m),
        u.input_tokens == resolved_usage(*m).input_tokens,
        u.output_tokens == resolved_usage(*m).output_tokens,
        u.cache_creation_input_tokens == resolved_usage(*m).cache_creation_input_tokens,
        u.cache_read_input_tokens == resolved_usage(*m).cache_read_input_tokens,
    ensures
        unique_keys(final(models)@),
        forall|k: Seq<char>| #[trigger] lookup(final(models)@, k) == if k == name@ {
            Some(model_added(lookup(old(models)@, k), *m))
        } else {
            lookup(old(models)@, k)
        },
{
    let ghost before = models@;
    let (idx, d) = match find_key(models, name.as_str()) {
        Some(i) => {
            proof {
                crate::keyed::lemma_lookup_at(before, i as int);
            }
            (Some(i), models[i].1)
        },
        None => {
            proof {
                crate::keyed::lemma_lookup_absent(before, name@);
            }
            (None, ModelTotals {
                message_count: 0,
                token_count: 0,
                input_tokens: 0,
                output_tokens: 0,
                cache_creation_tokens: 0,
                cache_read_tokens: 0,
            })
        },
    };
    let v = ModelTotals {
        message_count: add32(d.message_count, 1),
        token_count: add64(d.token_count, tokens),
        input_tokens: add64(d.input_tokens, or_zero(u.input_tokens) as u64),
        output_tokens: add64(d.output_tokens, or_zero(u.output_tokens) as u64),
        cache_creation_tokens: add64(d.cache_creation_tokens, or_zero(u.cache_creation_input_tokens) as u64),
        cache_read_tokens: add64(d.cache_read_tokens, or_zero(u.cache_read_input_tokens) as u64),
    };
    assert(v == model_added(lookup(before, name@), *m));
    match idx {
        Some(i) => {
            let k = models[i].0.clone();
            models.set(i, (k, v));
            proof {
                assert forall|key: Seq<char>| #[trigger] lookup(models@, key) == if key == name@ {
                    Some(model_added(lookup(before, key), *m))
                } else {
                    lookup(before, key)
                } by {
                    lemma_lookup_update(before, i as int, k, v, key);
                }
                lemma_lookup_update(before, i as int, k, v, name@);
            }
        },
        None => {
            let k = name.clone();
            models.push((k, v));
            proof {
                assert forall|key: Seq<char>| #[trigger] lookup(models@, key) == if key == name@ {
                    Some(model_added(lookup(before, key), *m))
                } else {
                    lookup(before, key)
                } by {
                    lemma_lookup_push(before, k, v, key);
                }
                lemma_lookup_push(before, k, v, name@);
            }
        },
    }
}

/// The earlier of a kept first time and `t`.
pub open spec fn earliest(o: Option<Instant>, t: Instant) -> Option<Instant> {
    match o {
        Some(f) => if instant_key(t) < instant_key(f) { Some(t) } else { Some(f) },
        None => Some(t),
    }
}

/// The later of a kept last time and `t`.
pub open spec fn latest(o: Option<Instant>, t: Instant) -> Option<Instant> {
    match o {
        Some(f) => if instant_key(t) > instant_key(f) { Some(t) } else { Some(f) },
        None => Some(t),
    }
}

impl Aggregate {
    /// Takes in one message. It is counted; its tool calls are counted; and
    /// where its timestamp parses, its tokens go to the totals, to its
    /// hour-and-weekday cell, to its day and to its model, and its time to
    /// the session and to the first and last times.
    pub fn add_message(&mut self, m: &ClaudeMessage)
        requires
            old(self).wf(),
        ensures
            final(self).wf(),
            final(self).total_messages == cap64(old(self).total_messages + 1),
            final(self).project_messages == cap32(old(self).project_messages + 1),
            final(self).total_sessions == old(self).total_sessions,
            final(self).project_sessions == old(self).project_sessions,
            final(self).durations == old(self).durations,
            final(self).projects == old(self).projects,
            forall|k: Seq<char>| #[trigger] lookup(final(self).tools@, k) == tool_after(lookup(old(self).tools@, k), *m, k),
            match rfc3339_instant(m.timestamp@) {
                Some(t) => {
                    let u = resolved_usage(*m);
                    let c = cell_index(t.hour as int, t.weekday as int);
                    &&& final(self).project_tokens == cap64(old(self).project_tokens + message_tokens(*m))
                    &&& final(self).distribution.input == cap64(old(self).distribution.input + count_of(u.input_tokens))
                    &&& final(self).distribution.output == cap64(old(self).distribution.output + count_of(u.output_tokens))
                    &&& final(self).distribution.cache_creation == cap64(old(self).distribution.cache_creation + count_of(u.cache_creation_input_tokens))
                    &&& final(self).distribution.cache_read == cap64(old(self).distribution.cache_read + count_of(u.cache_read_input_tokens))
                    &&& final(self).cells@ == old(self).cells@.update(c, (
                        cap32(old(self).cells@[c].0 + 1) as u32,
                        cap64(old(self).cells@[c].1 + message_tokens(*m)) as u64,
                    ))
                    &&& forall|k: Seq<char>| #[trigger] lookup(final(self).daily@, k) == if k == t.date@ {
                        Some(day_added(lookup(old(self).daily@, k), t, *m))
                    } else {
                        lookup(old(self).daily@, k)
                    }
                    &&& forall|k: Seq<char>| #[trigger] lookup(final(self).models@, k) == if m.model matches Some(n) && k == n@ {
                        Some(model_added(lookup(old(self).models@, k), *m))
                    } else {
                        lookup(old(self).models@, k)
                    }
                    &&& final(self).session_times@ == old(self).session_times@.push(t)
                    &&& final(self).first == earliest(old(self).first, t)
                    &&& final(self).last == latest(old(self).last, t)
                },
                None => {
                    &&& final(self).project_tokens == old(self).project_tokens
                    &&& final(self).distribution == old(self).distribution
                    &&& final(self).cells == old(self).cells
                    &&& final(self).daily == old(self).daily
                    &&& final(self).models == old(self).models
                    &&& final(self).session_times == old(self).session_times
                    &&& final(self).first == old(self).first
                    &&& final(self).last == old(self).last
                },
            },
    {
        self.total_messages = add64(self.total_messages, 1);
        self.project_messages = add32(self.project_messages, 1);
        match parse_timestamp(m.timestamp.as_str()) {
            Some(t) => {
                let u = extract_token_usage(m);
                let input = or_zero(u.input_tokens) as u64;
                let output = or_zero(u.output_tokens) as u64;
                let cache_creation = or_zero(u.cache_creation_input_tokens) as u64;
                let cache_read = or_zero(u.cache_read_input_tokens) as u64;
                let tokens = input + output + cache_creation + cache_read;
                self.project_tokens = add64(self.project_tokens, tokens);
                self.distribution.input = add64(self.distribution.input, input);
                self.distribution.output = add64(self.distribution.output, output);
                self.distribution.cache_creation = add64(self.distribution.cache_creation, cache_creation);
                self.distribution.cache_read = add64(self.distribution.cache_read, cache_read);
                let c = t.hour as usize * 7 + t.weekday as usize;
                let (count, used) = self.cells[c];
                self.cells.set(c, (add32(count, 1), add64(used, tokens)));
                record_day(&mut self.daily, &t, m, tokens, input, output);
                match &m.model {
                    Some(name) => record_model(&mut self.models, name, m, tokens, &u),
                    None => {},
                }
                let k = key_of(&t);
                let take_first = match &self.first {
                    Some(f) => k < key_of(f),
                    None => true,
                };
                if take_first {
                    self.first = Some(t.clone_instant());
                }
                let take_last = match &self.last {
                    Some(l) => k > key_of(l),
                    None => true,
                };
                if take_last {
                    self.last = Some(t.clone_instant());
                }
                self.session_times.push(t);
            },
            None => {},
        }
        record_tool_calls(&mut self.tools, m);
    }
}

impl Instant {
    /// A copy of this instant.
    pub fn clone_instant(&self) -> (r: Instant)
        ensures
            r == *self,
    {
        Instant {
            seconds: self.seconds,
            nanos: self.nanos,
            hour: self.hour,
            weekday: self.weekday,
            date: self.date.clone(),
            rfc3339: self.rfc3339.clone(),
        }
    }
}

impl Aggregate {
    /// Closes the session under way: it is counted, and if any of its
    /// messages had a time, its active minutes are recorded.
    pub fn end_session(&mut self)
        requires
            old(self).wf(),
        ensures
            final(self).wf(),
            final(self).total_sessions == cap64(old(self).total_sessions + 1),
            final(self).project_sessions == cap32(old(self).project_sessions + 1),
            final(self).session_times@.len() == 0,
            old(self).session_times@.len() == 0 ==> final(self).durations == old(self).durations,
            old(self).session_times@.len() > 0 ==> {
                &&& final(self).durations@.len() == old(self).durations@.len() + 1
                &&& final(self).durations@.drop_last() == old(self).durations@
                &&& is_active_minutes(old(self).session_times@, final(self).durations@.last() as int)
            },
            final(self).total_messages == old(self).total_messages,
            final(self).distribution == old(self).distribution,
            final(self).cells == old(self).cells,
            final(self).daily == old(self).daily,
            final(self).tools == old(self).tools,
            final(self).models == old(self).models,
            final(self).first == old(self).first,
            final(self).last == old(self).last,
            final(self).project_messages == old(self).project_messages,
            final(self).project_tokens == old(self).project_tokens,
            final(self).projects == old(self).projects,
    {
        self.total_sessions = add64(self.total_sessions, 1);
        self.project_sessions = add32(self.project_sessions, 1);
        if self.session_times.len() > 0 {
            let minutes = session_active_minutes(&self.session_times);
            let ghost before = self.durations@;
            self.durations.push(minutes);
            assert(self.durations@.drop_last() =~= before);
        }
        self.session_times = Vec::new();
    }

    /// Closes the project under way under `name`: its counters are recorded
    /// as a ranking entry and start again from zero.
    pub fn end_project(&mut self, name: String)
        requires
            old(self).wf(),
        ensures
            final(self).wf(),
            final(self).projects@ == old(self).projects@.push(ProjectRanking {
                project_name: name,
                sessions: old(self).project_sessions,
                messages: old(self).project_messages,
                tokens: old(self).project_tokens,
            }),
            final(self).project_sessions == 0 && final(self).project_messages == 0 && final(self).project_tokens == 0,
    {
        let entry = ProjectRanking {
            project_name: name,
            sessions: self.project_sessions,
            messages: self.project_messages,
            tokens: self.project_tokens,
        };
        self.projects.push(entry);
        self.project_sessions = 0;
        self.project_messages = 0;
        self.project_tokens = 0;
    }
}

/// The coarse active-hours figure of a day: a tenth of its messages, at
/// least one and at most 24; none for a day without messages.
pub open spec fn active_hours_of(messages: int) -> int {
    if messages <= 0 {
        0
    } else if messages / 10 < 1 {
        1
    } else if messages / 10 > 24 {
        24
    } else {
        messages / 10
    }
}

fn active_hours(messages: usize) -> (r: usize)
    ensures
        r == active_hours_of(messages as int),
{
    if messages == 0 {
        0
    } else if messages / 10 < 1 {
        1
    } else if messages / 10 > 24 {
        24
    } else {
        messages / 10
    }
}

/// A day's statistics from its totals.
pub open spec fn daily_of(e: (String, DayTotals), session_count: usize) -> DailyStats {
    DailyStats {
        date: e.0,
        total_tokens: e.1.total_tokens,
        input_tokens: e.1.input_tokens,
        output_tokens: e.1.output_tokens,
        message_count: e.1.message_count,
        session_count,
        active_hours: active_hours_of(e.1.message_count as int) as usize,
    }
}

/// The dates do not descend anywhere.
pub open spec fn dates_ascending(r: Seq<DailyStats>) -> bool {
    forall|i: int, j: int| 0 <= i < j < r.len() ==> !seq_less((#[trigger] r[j]).date@, (#[trigger] r[i]).date@)
}

/// `r` is the days of `daily` as statistics, ordered by date.
pub open spec fn ordered_days(daily: Seq<(String, DayTotals)>, session_count: usize, r: Seq<DailyStats>) -> bool {
    &&& dates_ascending(r)
    &&& r.to_multiset() == daily.map_values(|e: (String, DayTotals)| daily_of(e, session_count)).to_multiset()
}

/// Orders days by date; the result holds exactly the days given.
pub fn sort_by_date(items: Vec<DailyStats>) -> (r: Vec<DailyStats>)
    ensures
        dates_ascending(r@),
        r@.to_multiset() == items@.to_multiset(),
{
    broadcast use vstd::multiset::group_multiset_axioms;
    let mut rest = items;
    let ghost original = rest@;
    let mut out: Vec<DailyStats> = Vec::new();
    proof {
        to_multiset_len(out@);
        lemma_multiset_empty_len(out@.to_multiset());
    }
    assert(out@.to_multiset().add(rest@.to_multiset()) =~= original.to_multiset());
    while rest.len() > 0
        invariant
            dates_ascending(out@),
            out@.to_multiset().add(rest@.to_multiset()) == original.to_multiset(),
        decreases rest@.len(),
    {
        let ghost before = rest@;
        let item = rest.pop().unwrap();
        assert(before == rest@.push(item));
        proof {
            to_multiset_build(rest@, item);
        }
        let mut pos: usize = 0;
        while pos < out.len() && str_less(out[pos].date.as_str(), item.date.as_str())
            invariant
                pos <= out@.len(),
                forall|k: int| 0 <= k < pos ==> seq_less((#[trigger] out@[k]).date@, item.date@),
            decreases out@.len() - pos,
        {
            pos = pos + 1;
        }
        let ghost old_out = out@;
        out.insert(pos, item);
        proof {
            to_multiset_insert(old_out, pos as int, item);
            assert(out@.to_multiset().add(rest@.to_multiset()) =~= old_out.to_multiset().add(before.to_multiset()));
            assert forall|i: int, j: int| 0 <= i < j < out@.len() implies !seq_less((#[trigger] out@[j]).date@, (#[trigger] out@[i]).date@) by {
                let t = item.date@;
                if j < pos {
                } else if j == pos {
                    lemma_less_total(old_out[i].date@, t);
                } else if i < pos {
                } else if i == pos {
                    lemma_less_total(old_out[pos as int].date@, old_out[pos as int].date@);
                    lemma_not_less_transitive(old_out[j - 1].date@, old_out[pos as int].date@, t);
                } else {
                }
            }
        }
    }
    proof {
        to_multiset_len(rest@);
        lemma_multiset_empty_len(rest@.to_multiset());
    }
    assert(out@.to_multiset() =~= out@.to_multiset().add(rest@.to_multiset()));
    out
}

/// The daily statistics, ordered by date.
pub fn daily_stats_of(daily: &Vec<(String, DayTotals)>, session_count: usize) -> (r: Vec<DailyStats>)
    ensures
        ordered_days(daily@, session_count, r@),
{
    let mut days: Vec<DailyStats> = Vec::new();
    let mut i: usize = 0;
    while i < daily.len()
        invariant
            i <= daily@.len(),
            days@ == daily@.map_values(|e: (String, DayTotals)| daily_of(e, session_count)).subrange(0, i as int),
        decreases daily@.len() - i,
    {
        let d = daily[i].1;
        days.push(DailyStats {
            date: daily[i].0.clone(),
            total_tokens: d.total_tokens,
            input_tokens: d.input_tokens,
            output_tokens: d.output_tokens,
            message_count: d.message_count,
            session_count,
            active_hours: active_hours(d.message_count),
        });
        assert(days@ =~= daily@.map_values(|e: (String, DayTotals)| daily_of(e, session_count)).subrange(0, i + 1));
        i = i + 1;
    }
    assert(days@ =~= daily@.map_values(|e: (String, DayTotals)| daily_of(e, session_count)));
    sort_by_date(days)
}

/// A tool's statistics from its counts.
pub open spec fn tool_of(e: (String, (u32, u32))) -> (i128, ToolUsageStats) {
    (-(e.1.0 as int) as i128, ToolUsageStats { tool_name: e.0, usage_count: e.1.0, success_count: e.1.1 })
}

/// `r` is the tools of `tools` as statistics, most used first.
pub open spec fn ranked_tools(tools: Seq<(String, (u32, u32))>, r: Seq<ToolUsageStats>) -> bool {
    exists|s: Seq<(i128, ToolUsageStats)>|
        keys_ascending(s)
        && s.to_multiset() == tools.map_values(|e: (String, (u32, u32))| tool_of(e)).to_multiset()
        && r == s.map_values(|p: (i128, ToolUsageStats)| p.1)
}

/// The tool statistics, most used first.
pub fn tool_stats_of(tools: &Vec<(String, (u32, u32))>) -> (r: Vec<ToolUsageStats>)
    ensures
        ranked_tools(tools@, r@),
{
    let mut keyed: Vec<(i128, ToolUsageStats)> = Vec::new();
    let mut i: usize = 0;
    while i < tools.len()
        invariant
            i <= tools@.len(),
            keyed@ == tools@.map_values(|e: (String, (u32, u32))| tool_of(e)).subrange(0, i as int),
        decreases tools@.len() - i,
    {
        let (u, c) = tools[i].1;
        keyed.push((-(u as i128), ToolUsageStats { tool_name: tools[i].0.clone(), usage_count: u, success_count: c }));
        assert(keyed@ =~= tools@.map_values(|e: (String, (u32, u32))| tool_of(e)).subrange(0, i + 1));
        i = i + 1;
    }
    assert(keyed@ =~= tools@.map_values(|e: (String, (u32, u32))| tool_of(e)));
    sorted_values(keyed)
}

/// A model's statistics from its totals.
pub open spec fn model_of(e: (String, ModelTotals)) -> (i128, ModelStats) {
    (-(e.1.token_count as int) as i128, ModelStats {
        model_name: e.0,
        message_count: e.1.message_count,
        token_count: e.1.token_count,
        input_tokens: e.1.input_tokens,
        output_tokens: e.1.output_tokens,
        cache_creation_tokens: e.1.cache_creation_tokens,
        cache_read_tokens: e.1.cache_read_tokens,
    })
}

/// `r` is the models of `models` as statistics, most tokens first.
pub open spec fn ranked_models(models: Seq<(String, ModelTotals)>, r: Seq<ModelStats>) -> bool {
    exists|s: Seq<(i128, ModelStats)>|
        keys_ascending(s)
        && s.to_multiset() == models.map_values(|e: (String, ModelTotals)| model_of(e)).to_multiset()
        && r == s.map_values(|p: (i128, ModelStats)| p.1)
}

/// The model statistics, most tokens first.
pub fn model_stats_of(models: &Vec<(String, ModelTotals)>) -> (r: Vec<ModelStats>)
    ensures
        ranked_models(models@, r@),
{
    let mut keyed: Vec<(i128, ModelStats)> = Vec::new();
    let mut i: usize = 0;
    while i < models.len()
        invariant
            i <= models@.len(),
            keyed@ == models@.map_values(|e: (String, ModelTotals)| model_of(e)).subrange(0, i as int),
        decreases models@.len() - i,
    {
        let d = models[i].1;
        keyed.push((-(d.token_count as i128), ModelStats {
            model_name: models[i].0.clone(),
            message_count: d.message_count,
            token_count: d.token_count,
            input_tokens: d.input_tokens,
            output_tokens: d.output_tokens,
            cache_creation_tokens: d.cache_creation_tokens,
            cache_read_tokens: d.cache_read_tokens,
        }));
        assert(keyed@ =~= models@.map_values(|e: (String, ModelTotals)| model_of(e)).subrange(0, i + 1));
        i = i + 1;
    }
    assert(keyed@ =~= models@.map_values(|e: (String, ModelTotals)| model_of(e)));
    sorted_values(keyed)
}

/// The cells with activity, as heatmap entries, in hour-then-weekday order.
pub open spec fn heatmap_of(cells: Seq<(u32, u64)>) -> Seq<ActivityHeatmap>
    decreases cells.len(),
{
    if cells.len() == 0 {
        Seq::empty()
    } else {
        let rest = heatmap_of(cells.drop_last());
        let c = cells.len() - 1;
        if cells.last().0 > 0 {
            rest.push(ActivityHeatmap {
                hour: (c / 7) as u8,
                day: (c % 7) as u8,
                activity_count: cells.last().0,
                tokens_used: cells.last().1,
            })
        } else {
            rest
        }
    }
}

/// The heatmap entries of the cells with activity.
pub fn heatmap(cells: &Vec<(u32, u64)>) -> (r: Vec<ActivityHeatmap>)
    requires
        cells@.len() == HEATMAP_CELLS,
    ensures
        r@ == heatmap_of(cells@),
{
    let mut out: Vec<ActivityHeatmap> = Vec::new();
    let mut i: usize = 0;
    while i < cells.len()
        invariant
            cells@.len() == HEATMAP_CELLS,
            i <= cells@.len(),
            out@ == heatmap_of(cells@.subrange(0, i as int)),
        decreases cells@.len() - i,
    {
        assert(cells@.subrange(0, i + 1).drop_last() =~= cells@.subrange(0, i as int));
        let (count, tokens) = cells[i];
        if count > 0 {
            out.push(ActivityHeatmap { hour: (i / 7) as u8, day: (i % 7) as u8, activity_count: count, tokens_used: tokens });
        }
        i = i + 1;
    }
    assert(cells@.subrange(0, cells@.len() as int) =~= cells@);
    out
}

/// The hour of a busiest cell (which of several is left open); 0 when no
/// cell has activity.
pub fn most_active_hour(cells: &Vec<(u32, u64)>) -> (r: u8)
    requires
        cells@.len() == HEATMAP_CELLS,
    ensures
        (forall|c: int| 0 <= c < cells@.len() ==> (#[trigger] cells@[c]).0 == 0) ==> r == 0,
        (exists|c: int| 0 <= c < cells@.len() && (#[trigger] cells@[c]).0 > 0) ==> exists|c: int|
            0 <= c < cells@.len() && (#[trigger] cells@[c]).0 > 0 && r == c / 7
            && forall|d: int| 0 <= d < cells@.len() ==> (#[trigger] cells@[d]).0 <= cells@[c].0,
{
    let mut best: usize = 0;
    let mut i: usize = 1;
    while i < cells.len()
        invariant
            cells@.len() == HEATMAP_CELLS,
            1 <= i <= cells@.len(),
            best < i,
            forall|d: int| 0 <= d < i ==> (#[trigger] cells@[d]).0 <= cells@[best as int].0,
        decreases cells@.len() - i,
    {
        if cells[i].0 > cells[best].0 {
            best = i;
        }
        i = i + 1;
    }
    if cells[best].0 == 0 {
        0
    } else {
        (best / 7) as u8
    }
}

fn sum_durations_u32(durations: &Vec<u64>) -> (r: u32)
    ensures
        r == cap32(sum_of(durations@)),
{
    let mut total: u32 = 0;
    let mut i: usize = 0;
    while i < durations.len()
        invariant
            i <= durations@.len(),
            total == cap32(sum_of(durations@.subrange(0, i as int))),
        decreases durations@.len() - i,
    {
        assert(durations@.subrange(0, i + 1).drop_last() =~= durations@.subrange(0, i as int));
        proof {
            lemma_sum_nonneg(durations@.subrange(0, i as int));
        }
        let d = if durations[i] > u32::MAX as u64 { u32::MAX } else { durations[i] as u32 };
        total = add32(total, d);
        i = i + 1;
    }
    assert(durations@.subrange(0, durations@.len() as int) =~= durations@);
    total
}

fn sum_durations_u64(durations: &Vec<u64>) -> (r: u64)
    ensures
        r == cap64(sum_of(durations@)),
{
    let mut total: u64 = 0;
    let mut i: usize = 0;
    while i < durations.len()
        invariant
            i <= durations@.len(),
            total == cap64(sum_of(durations@.subrange(0, i as int))),
        decreases durations@.len() - i,
    {
        assert(durations@.subrange(0, i + 1).drop_last() =~= durations@.subrange(0, i as int));
        proof {
            lemma_sum_nonneg(durations@.subrange(0, i as int));
        }
        total = add64(total, durations[i]);
        i = i + 1;
    }
    assert(durations@.subrange(0, durations@.len() as int) =~= durations@);
    total
}

/// The sum of a list of minutes.
pub open spec fn sum_of(s: Seq<u64>) -> int
    decreases s.len(),
{
    if s.len() == 0 {
        0
    } else {
        sum_of(s.drop_last()) + s.last()
    }
}

proof fn lemma_sum_nonneg(s: Seq<u64>)
    ensures
        sum_of(s) >= 0,
    decreases s.len(),
{
    if s.len() > 0 {
        lemma_sum_nonneg(s.drop_last());
    }
}

/// The busiest-hour rule of `most_active_hour`.
pub open spec fn is_most_active_hour(cells: Seq<(u32, u64)>, r: u8) -> bool {
    &&& (forall|c: int| 0 <= c < cells.len() ==> (#[trigger] cells[c]).0 == 0) ==> r == 0
    &&& (exists|c: int| 0 <= c < cells.len() && (#[trigger] cells[c]).0 > 0) ==> exists|c: int|
        0 <= c < cells.len() && (#[trigger] cells[c]).0 > 0 && r == c / 7
        && forall|d: int| 0 <= d < cells.len() ==> (#[trigger] cells[d]).0 <= cells[c].0
}

/// The four token counters together, held at the largest `u64`.
pub open spec fn distribution_total(d: TokenDistribution) -> int {
    cap64(d.input + d.output + d.cache_creation + d.cache_read)
}

/// Statistics of one project from what its sessions gathered. Each day
/// counts one session, as every day listed had a message.
pub fn project_summary(agg: &Aggregate, project_name: String) -> (r: ProjectStatsSummary)
    requires
        agg.wf(),
    ensures
        r.project_name == project_name,
        r.total_sessions == capsize(agg.total_sessions as int),
        r.total_messages == capsize(agg.total_messages as int),
        r.total_tokens == distribution_total(agg.distribution),
        r.avg_tokens_per_session == if r.total_sessions > 0 { r.total_tokens / r.total_sessions as u64 } else { 0 },
        r.total_session_duration == cap32(sum_of(agg.durations@)),
        r.avg_session_duration == if agg.durations@.len() > 0 {
            r.total_session_duration as int / agg.durations@.len() as int
        } else {
            0
        },
        is_most_active_hour(agg.cells@, r.most_active_hour),
        ranked_tools(agg.tools@, r.most_used_tools@),
        ordered_days(agg.daily@, 1, r.daily_stats@),
        r.activity_heatmap@ == heatmap_of(agg.cells@),
        r.token_distribution == agg.distribution,
{
    let d = agg.distribution;
    let total_tokens = add64(add64(add64(d.input, d.output), d.cache_creation), d.cache_read);
    let total_sessions = if agg.total_sessions > usize::MAX as u64 { usize::MAX } else { agg.total_sessions as usize };
    let total_messages = if agg.total_messages > usize::MAX as u64 { usize::MAX } else { agg.total_messages as usize };
    let avg_tokens_per_session = if total_sessions > 0 { total_tokens / total_sessions as u64 } else { 0 };
    let total_session_duration = sum_durations_u32(&agg.durations);
    let avg_session_duration = if agg.durations.len() > 0 {
        (total_session_duration as u64 / agg.durations.len() as u64) as u32
    } else {
        0
    };
    ProjectStatsSummary {
        project_name,
        total_sessions,
        total_messages,
        total_tokens,
        avg_tokens_per_session,
        avg_session_duration,
        total_session_duration,
        most_active_hour: most_active_hour(&agg.cells),
        most_used_tools: tool_stats_of(&agg.tools),
        daily_stats: daily_stats_of(&agg.daily, 1),
        activity_heatmap: heatmap(&agg.cells),
        token_distribution: d,
    }
}

/// The projects that rank highest by tokens.
pub const TOP_PROJECTS: usize = 10;

/// A project's ranking, keyed for most tokens first.
pub open spec fn project_key(p: ProjectRanking) -> (i128, ProjectRanking) {
    (-(p.tokens as int) as i128, p)
}

/// `r` is the projects, most tokens first, cut to the top ten.
pub open spec fn top_ranked(projects: Seq<ProjectRanking>, r: Seq<ProjectRanking>) -> bool {
    exists|s: Seq<(i128, ProjectRanking)>|
        keys_ascending(s)
        && s.to_multiset() == projects.map_values(|p: ProjectRanking| project_key(p)).to_multiset()
        && r == s.map_values(|p: (i128, ProjectRanking)| p.1).take(
            if s.len() < TOP_PROJECTS { s.len() as int } else { TOP_PROJECTS as int },
        )
}

fn top_projects(projects: &Vec<ProjectRanking>) -> (r: Vec<ProjectRanking>)
    ensures
        top_ranked(projects@, r@),
{
    let mut keyed: Vec<(i128, ProjectRanking)> = Vec::new();
    let mut i: usize = 0;
    while i < projects.len()
        invariant
            i <= projects@.len(),
            keyed@ == projects@.map_values(|p: ProjectRanking| project_key(p)).subrange(0, i as int),
        decreases projects@.len() - i,
    {
        let p = &projects[i];
        keyed.push((-(p.tokens as i128), ProjectRanking {
            project_name: p.project_name.clone(),
            sessions: p.sessions,
            messages: p.messages,
            tokens: p.tokens,
        }));
        assert(keyed@ =~= projects@.map_values(|p: ProjectRanking| project_key(p)).subrange(0, i + 1));
        i = i + 1;
    }
    assert(keyed@ =~= projects@.map_values(|p: ProjectRanking| project_key(p)));
    let mut all = sorted_values(keyed);
    let ghost full = all@;
    all.truncate(TOP_PROJECTS);
    proof {
        let s = choose|s: Seq<(i128, ProjectRanking)>|
            keys_ascending(s) && s.to_multiset() == projects@.map_values(|p: ProjectRanking| project_key(p)).to_multiset()
            && full == s.map_values(|p: (i128, ProjectRanking)| p.1);
        assert(s.len() == full.len());
        assert(all@ =~= s.map_values(|p: (i128, ProjectRanking)| p.1).take(
            if s.len() < TOP_PROJECTS { s.len() as int } else { TOP_PROJECTS as int },
        ));
    }
    all
}

/// Whole days between two instants, held at the largest `u32`; none when
/// the second is not the later.
pub open spec fn days_between(f: Instant, l: Instant) -> int {
    if instant_key(l) >= instant_key(f) {
        cap32((instant_key(l) - instant_key(f)) / NANOS_PER_DAY as int)
    } else {
        0
    }
}

/// Statistics over every project from what all sessions gathered, with
/// each project closed by `end_project`.
pub fn global_summary(agg: &Aggregate) -> (r: GlobalStatsSummary)
    requires
        agg.wf(),
    ensures
        r.total_projects == cap32(agg.projects@.len() as int),
        r.total_sessions == cap32(agg.total_sessions as int),
        r.total_messages == cap32(agg.total_messages as int),
        r.total_tokens == distribution_total(agg.distribution),
        r.total_session_duration_minutes == cap64(sum_of(agg.durations@)),
        match (agg.first, agg.last) {
            (Some(f), Some(l)) => r.date_range.first_message == Some(f.rfc3339)
                && r.date_range.last_message == Some(l.rfc3339)
                && r.date_range.days_span == days_between(f, l),
            _ => r.date_range.first_message is None && r.date_range.last_message is None
                && r.date_range.days_span == 0,
        },
        r.token_distribution == agg.distribution,
        ordered_days(agg.daily@, 0, r.daily_stats@),
        r.activity_heatmap@ == heatmap_of(agg.cells@),
        ranked_tools(agg.tools@, r.most_used_tools@),
        ranked_models(agg.models@, r.model_distribution@),
        top_ranked(agg.projects@, r.top_projects@),
{
    let date_range = match (&agg.first, &agg.last) {
        (Some(f), Some(l)) => {
            let fk = key_of(f);
            let lk = key_of(l);
            let span: u32 = if lk >= fk {
                let days = (lk - fk) / NANOS_PER_DAY;
                if days > u32::MAX as i128 { u32::MAX } else { days as u32 }
            } else {
                0
            };
            DateRange { first_message: Some(f.rfc3339.clone()), last_message: Some(l.rfc3339.clone()), days_span: span }
        },
        _ => DateRange { first_message: None, last_message: None, days_span: 0 },
    };
    GlobalStatsSummary {
        total_projects: if agg.projects.len() > u32::MAX as usize { u32::MAX } else { agg.projects.len() as u32 },
        total_sessions: if agg.total_sessions > u32::MAX as u64 { u32::MAX } else { agg.total_sessions as u32 },
        total_messages: if agg.total_messages > u32::MAX as u64 { u32::MAX } else { agg.total_messages as u32 },
        total_tokens: add64(add64(add64(agg.distribution.input, agg.distribution.output), agg.distribution.cache_creation), agg.distribution.cache_read),
        total_session_duration_minutes: sum_durations_u64(&agg.durations),
        date_range,
        token_distribution: agg.distribution,
        daily_stats: daily_stats_of(&agg.daily, 0),
        activity_heatmap: heatmap(&agg.cells),
        most_used_tools: tool_stats_of(&agg.tools),
        model_distribution: model_stats_of(&agg.models),
        top_projects: top_projects(&agg.projects),
    }
}

} // verus!
