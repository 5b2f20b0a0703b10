//! Resolving the token usage of a message from the places it may be reported.

use vstd::prelude::*;
use crate::json::Json;
use crate::models::{ClaudeMessage, TokenUsage};

verus! {

/// `a` where present, else `b`.
pub open spec fn or_else<T>(a: Option<T>, b: Option<T>) -> Option<T> {
    if a is Some {
        a
    } else {
        b
    }
}

/// A reported count, narrowed to 32 bits as the counters are kept.
pub open spec fn narrowed(v: Option<u64>) -> Option<u32> {
    match v {
        Some(x) => Some(x as u32),
        None => None,
    }
}

/// The counter `key` of a usage object, if that object exists and has it.
pub open spec fn counter(obj: Option<Json>, key: Seq<char>) -> Option<u32> {
    match obj {
        Some(o) => narrowed(o.field_unsigned(key)),
        None => None,
    }
}

/// The `usage` member of an optional JSON object.
pub open spec fn usage_member(v: Option<Json>) -> Option<Json> {
    match v {
        Some(j) => j.field(seq!['u', 's', 'a', 'g', 'e']),
        None => None,
    }
}

/// The usage object attached to the message itself.
pub open spec fn own_usage(m: ClaudeMessage) -> TokenUsage {
    match m.usage {
        Some(u) => u,
        None => TokenUsage {
            input_tokens: None,
            output_tokens: None,
            cache_creation_input_tokens: None,
            cache_read_input_tokens: None,
            service_tier: None,
        },
    }
}

pub open spec fn input_key() -> Seq<char> { seq!['i', 'n', 'p', 'u', 't', '_', 't', 'o', 'k', 'e', 'n', 's'] }
pub open spec fn output_key() -> Seq<char> { seq!['o', 'u', 't', 'p', 'u', 't', '_', 't', 'o', 'k', 'e', 'n', 's'] }
pub open spec fn cache_creation_key() -> Seq<char> { "cache_creation_input_tokens"@ }
pub open spec fn cache_read_key() -> Seq<char> { "cache_read_input_tokens"@ }
pub open spec fn tier_key() -> Seq<char> { "service_tier"@ }
pub open spec fn total_key() -> Seq<char> { "totalTokens"@ }

/// One counter after the first three steps: the message's own value, else
/// the one in its content's usage object; then the tool result's usage
/// object, where it has the counter, takes precedence over both.
pub open spec fn stepped(own: Option<u32>, m: ClaudeMessage, key: Seq<char>) -> Option<u32> {
    or_else(counter(usage_member(m.tool_use_result), key), or_else(own, counter(usage_member(m.content), key)))
}

/// The total reported by the tool result, narrowed to 32 bits.
pub open spec fn tool_total(m: ClaudeMessage) -> Option<u32> {
    match m.tool_use_result {
        Some(t) => narrowed(t.field_unsigned(total_key())),
        None => None,
    }
}

/// Whether the tool total is used: neither input nor output was found.
pub open spec fn uses_total(m: ClaudeMessage) -> bool {
    stepped(own_usage(m).input_tokens, m, input_key()) is None
        && stepped(own_usage(m).output_tokens, m, output_key()) is None
        && tool_total(m) is Some
}

pub open spec fn is_assistant(m: ClaudeMessage) -> bool {
    m.message_type@ == "assistant"@
}

/// The resolved token usage of a message (its tier as far as the
/// message's own usage gives it; see `tier_from_content` for the rest).
pub open spec fn resolved_usage(m: ClaudeMessage) -> TokenUsage {
    let own = own_usage(m);
    TokenUsage {
        input_tokens: if uses_total(m) && !is_assistant(m) {
            tool_total(m)
        } else {
            stepped(own.input_tokens, m, input_key())
        },
        output_tokens: if uses_total(m) && is_assistant(m) {
            tool_total(m)
        } else {
            stepped(own.output_tokens, m, output_key())
        },
        cache_creation_input_tokens: stepped(own.cache_creation_input_tokens, m, cache_creation_key()),
        cache_read_input_tokens: stepped(own.cache_read_input_tokens, m, cache_read_key()),
        service_tier: own.service_tier,
    }
}

/// The tier text of the content's usage object equals `t`.
pub open spec fn tier_from_content(m: ClaudeMessage, t: Option<String>) -> bool {
    match usage_member(m.content) {
        Some(u) => match u.field_text(tier_key()) {
            Some(s) => t is Some && t->Some_0@ == s,
            None => t is None,
        },
        None => t is None,
    }
}

fn counter_of(obj: Option<&Json>, key: &str) -> (r: Option<u32>)
    ensures
        r == counter(match obj { Some(o) => Some(*o), None => None::<Json> }, key@),
{
    match obj {
        Some(o) => match o.get_u64(key) {
            Some(x) => Some(x as u32),
            None => None,
        },
        None => None,
    }
}

fn usage_of(v: &Option<Json>) -> (r: Option<&Json>)
    ensures
        match r { Some(o) => Some(*o), None => None::<Json> } == usage_member(*v),
{
    proof {
        reveal_strlit("usage");
        assert("usage"@ =~= seq!['u', 's', 'a', 'g', 'e']);
    }
    match v {
        Some(j) => j.get("usage"),
        None => None,
    }
}

fn pick(a: Option<u32>, b: Option<u32>) -> (r: Option<u32>)
    ensures
        r == or_else(a, b),
{
    if a.is_some() { a } else { b }
}

/// Resolves the token usage of a message. Each counter is taken from the
/// message's own usage, else from a `usage` object inside its content;
/// a `usage` object of the tool result then overrides the counters it
/// has. When neither input nor output is known and the tool result
/// reports `totalTokens`, that total counts as output for an assistant
/// message and as input otherwise. The tier comes from the message's own
/// usage, else from the content's usage object.
pub fn extract_token_usage(message: &ClaudeMessage) -> (u: TokenUsage)
    ensures
        u.input_tokens == resolved_usage(*message).input_tokens,
        u.output_tokens == resolved_usage(*message).output_tokens,
        u.cache_creation_input_tokens == resolved_usage(*message).cache_creation_input_tokens,
        u.cache_read_input_tokens == resolved_usage(*message).cache_read_input_tokens,
        match own_usage(*message).service_tier {
            Some(t) => u.service_tier == Some(t),
            None => tier_from_content(*message, u.service_tier),
        },
{
    proof {
        reveal_strlit("input_tokens");
        reveal_strlit("output_tokens");
        assert("input_tokens"@ =~= input_key());
        assert("output_tokens"@ =~= output_key());
    }
    let (own_in, own_out, own_cc, own_cr, own_tier) = match &message.usage {
        Some(u) => (u.input_tokens, u.output_tokens, u.cache_creation_input_tokens, u.cache_read_input_tokens, u.service_tier.clone()),
        None => (None, None, None, None, None),
    };
    let content_usage = usage_of(&message.content);
    let tool_usage = usage_of(&message.tool_use_result);
    let mut input = pick(counter_of(tool_usage, "input_tokens"), pick(own_in, counter_of(content_usage, "input_tokens")));
    let mut output = pick(counter_of(tool_usage, "output_tokens"), pick(own_out, counter_of(content_usage, "output_tokens")));
    let cache_creation = pick(
        counter_of(tool_usage, "cache_creation_input_tokens"),
        pick(own_cc, counter_of(content_usage, "cache_creation_input_tokens")),
    );
    let cache_read = pick(
        counter_of(tool_usage, "cache_read_input_tokens"),
        pick(own_cr, counter_of(content_usage, "cache_read_input_tokens")),
    );
    let service_tier = match own_tier {
        Some(t) => Some(t),
        None => match content_usage {
            Some(u) => match u.get_str("service_tier") {
                Some(t) => Some(t.clone()),
                None => None,
            },
            None => None,
        },
    };
    let total: Option<u32> = match &message.tool_use_result {
        Some(t) => match t.get_u64("totalTokens") {
            Some(x) => Some(x as u32),
            None => None,
        },
        None => None,
    };
    if input.is_none() && output.is_none() {
        if let Some(x) = total {
            proof {
                reveal_strlit("assistant");
            }
            if str_is(&message.message_type, "assistant") {
                output = Some(x);
            } else {
                input = Some(x);
            }
        }
    }
    TokenUsage {
        input_tokens: input,
        output_tokens: output,
        cache_creation_input_tokens: cache_creation,
        cache_read_input_tokens: cache_read,
        service_tier,
    }
}

/// Whether `s` holds exactly the characters of `lit`.
pub fn str_is(s: &String, lit: &str) -> (r: bool)
    ensures
        r == (s@ == lit@),
{
    crate::json::str_eq(s.as_str(), lit)
}

/// The sum of the four counters, each absent one counting as zero.
pub open spec fn usage_total(u: TokenUsage) -> int {
    count_of(u.input_tokens) + count_of(u.output_tokens) + count_of(u.cache_creation_input_tokens)
        + count_of(u.cache_read_input_tokens)
}

/// A counter's value, zero when absent.
pub open spec fn count_of(c: Option<u32>) -> int {
    match c {
        Some(x) => x as int,
        None => 0,
    }
}

/// A counter's value, zero when absent.
pub fn or_zero(c: Option<u32>) -> (r: u32)
    ensures
        r == count_of(c),
{
    match c {
        Some(x) => x,
        None => 0,
    }
}

} // verus!
