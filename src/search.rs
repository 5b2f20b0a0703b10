//! Case-insensitive search through the messages of session logs.

use vstd::prelude::*;
use crate::json::{search_in_value, value_matches};
use crate::models::{ClaudeMessage, RawLogEntry};
use crate::normalize::{fresh_uuid, now_rfc3339, unknown_session};
use crate::text::{decimal, decimal_text};
use crate::usage::str_is;

verus! {

/// A user or assistant record whose message content holds `q` in some
/// string, once lowercased.
pub open spec fn entry_matches(e: RawLogEntry, q: Seq<char>) -> bool {
    &&& (e.message_type@ == "user"@ || e.message_type@ == "assistant"@)
    &&& match e.message {
        Some(mc) => value_matches(mc.content, q),
        None => false,
    }
}

/// `m` is the search result made of `e`: its identity completed with the
/// fallbacks as in normalisation, the message payload lifted out, and no
/// snapshot, progress, queue or system fields.
pub open spec fn hit_form(e: RawLogEntry, fallback_uuid: Seq<char>, fallback_time: Seq<char>, m: ClaudeMessage) -> bool {
    &&& m.uuid@ == match e.uuid {
        Some(u) => u@,
        None => fallback_uuid,
    }
    &&& m.session_id@ == match e.session_id {
        Some(s) => s@,
        None => unknown_session(),
    }
    &&& m.timestamp@ == match e.timestamp {
        Some(t) => t@,
        None => fallback_time,
    }
    &&& m.parent_uuid == e.parent_uuid
    &&& m.message_type == e.message_type
    &&& m.tool_use == e.tool_use
    &&& m.tool_use_result == e.tool_use_result
    &&& m.is_sidechain == e.is_sidechain
    &&& m.cost_usd == e.cost_usd
    &&& m.duration_ms == e.duration_ms
    &&& e.message matches Some(mc) && {
        &&& m.content == Some(mc.content)
        &&& m.role == Some(mc.role)
        &&& m.model == mc.model
        &&& m.stop_reason == mc.stop_reason
        &&& m.usage == mc.usage
        &&& m.message_id == mc.id
    }
    &&& m.snapshot is None && m.is_snapshot_update is None && m.data is None
    &&& m.tool_use_id is None && m.parent_tool_use_id is None && m.operation is None
    &&& m.subtype is None && m.level is None && m.hook_count is None && m.hook_infos is None
    &&& m.stop_reason_system is None && m.prevented_continuation is None
    &&& m.compact_metadata is None && m.microcompact_metadata is None
}

/// Whether the record matches the lowercased query.
pub fn matches_query(entry: &RawLogEntry, query_lower: &str) -> (r: bool)
    ensures
        r == entry_matches(*entry, query_lower@),
{
    if !(str_is(&entry.message_type, "user") || str_is(&entry.message_type, "assistant")) {
        return false;
    }
    match &entry.message {
        Some(mc) => search_in_value(&mc.content, query_lower),
        None => false,
    }
}

/// The search result made of a record, if it matches the lowercased
/// query, with the given fallbacks for a missing identifier and time.
pub fn search_hit_with(entry: RawLogEntry, query_lower: &str, fallback_uuid: String, fallback_time: String) -> (r: Option<ClaudeMessage>)
    ensures
        match r {
            Some(m) => entry_matches(entry, query_lower@) && hit_form(entry, fallback_uuid@, fallback_time@, m),
            None => !entry_matches(entry, query_lower@),
        },
{
    if !matches_query(&entry, query_lower) {
        return None;
    }
    let mc = match entry.message {
        Some(mc) => mc,
        None => return None,
    };
    let uuid = match entry.uuid {
        Some(u) => u,
        None => fallback_uuid,
    };
    let session_id = match entry.session_id {
        Some(s) => s,
        None => {
            proof {
                reveal_strlit("unknown-session");
                assert("unknown-session"@ =~= unknown_session());
            }
            "unknown-session".to_owned()
        },
    };
    let timestamp = match entry.timestamp {
        Some(t) => t,
        None => fallback_time,
    };
    Some(ClaudeMessage {
        uuid,
        parent_uuid: entry.parent_uuid,
        session_id,
        timestamp,
        message_type: entry.message_type,
        content: Some(mc.content),
        tool_use: entry.tool_use,
        tool_use_result: entry.tool_use_result,
        is_sidechain: entry.is_sidechain,
        usage: mc.usage,
        role: Some(mc.role),
        model: mc.model,
        stop_reason: mc.stop_reason,
        cost_usd: entry.cost_usd,
        duration_ms: entry.duration_ms,
        message_id: mc.id,
        snapshot: None,
        is_snapshot_update: None,
        data: None,
        tool_use_id: None,
        parent_tool_use_id: None,
        operation: None,
        subtype: None,
        level: None,
        hook_count: None,
        hook_infos: None,
        stop_reason_system: None,
        prevented_continuation: None,
        compact_metadata: None,
        microcompact_metadata: None,
    })
}

/// The identifier given to a matching record on line `line_number` that
/// has none: a fresh identifier `id`, then `-line-` and the line number.
pub open spec fn line_identifier(id: Seq<char>, line_number: nat) -> Seq<char> {
    id + "-line-"@ + decimal(line_number)
}

/// Builds the identifier `line_identifier` describes.
pub fn line_identifier_text(id: String, line_number: usize) -> (r: String)
    ensures
        r@ == line_identifier(id@, line_number as nat),
{
    let mut r = id;
    r.append("-line-");
    let n = decimal_text(line_number);
    r.append(n.as_str());
    r
}

/// The search result made of the record on line `line_number` (counted
/// from one), if it matches the lowercased query; a missing identifier is
/// generated from the line number, a missing time is the current time.
pub fn search_hit(entry: RawLogEntry, query_lower: &str, line_number: usize) -> (r: Option<ClaudeMessage>)
    ensures
        match r {
            Some(m) => entry_matches(entry, query_lower@)
                && exists|id: Seq<char>, t: Seq<char>|
                    id.len() == 36 && t.len() > 0 && hit_form(entry, line_identifier(id, line_number as nat), t, m),
            None => !entry_matches(entry, query_lower@),
        },
{
    let matched = matches_query(&entry, query_lower);
    let needs_uuid = matched && entry.uuid.is_none();
    let needs_time = matched && entry.timestamp.is_none();
    let id = if needs_uuid { fresh_uuid() } else { String::new() };
    let ghost idv = if needs_uuid { id@ } else { Seq::new(36, |i: int| '0') };
    let fallback_uuid = if needs_uuid { line_identifier_text(id, line_number) } else { String::new() };
    let fallback_time = if needs_time { now_rfc3339() } else { String::new() };
    let ghost u = line_identifier(idv, line_number as nat);
    let ghost t = if needs_time { fallback_time@ } else { seq!['0'] };
    let r = search_hit_with(entry, query_lower, fallback_uuid, fallback_time);
    proof {
        if r is Some {
            assert(idv.len() == 36 && t.len() > 0 && hit_form(entry, line_identifier(idv, line_number as nat), t, r->Some_0));
        }
    }
    r
}

} // verus!
