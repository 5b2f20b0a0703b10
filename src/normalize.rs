//! Turning a log record into a message with a complete identity.

use vstd::prelude::*;
use crate::json::str_eq;
use crate::models::{ClaudeMessage, RawLogEntry};

verus! {

/// Why a record yields no message.
#[derive(Clone, Copy, Debug, PartialEq, Eq, Structural)]
pub enum Rejection {
    /// Summary records are kept apart from messages.
    Summary,
    /// The record has neither a session id nor a timestamp.
    MissingIdentity,
}

impl Rejection {
    /// A readable description of the rejection.
    pub fn message(&self) -> (r: String)
        ensures
            r@ == match self {
                Rejection::Summary => "Summary entries should be handled separately"@,
                Rejection::MissingIdentity => "Missing session_id and timestamp"@,
            },
    {
        match self {
            Rejection::Summary => "Summary entries should be handled separately".to_owned(),
            Rejection::MissingIdentity => "Missing session_id and timestamp".to_owned(),
        }
    }
}

/// The session id given to records that carry none.
pub open spec fn unknown_session() -> Seq<char> {
    seq!['u', 'n', 'k', 'n', 'o', 'w', 'n', '-', 's', 'e', 's', 's', 'i', 'o', 'n']
}

/// The kind tag of summary records.
pub open spec fn summary_kind() -> Seq<char> {
    seq!['s', 'u', 'm', 'm', 'a', 'r', 'y']
}

/// The rejection a record meets, if any.
pub open spec fn rejection_of(entry: RawLogEntry) -> Option<Rejection> {
    if entry.message_type@ == summary_kind() {
        Some(Rejection::Summary)
    } else if entry.session_id is None && entry.timestamp is None {
        Some(Rejection::MissingIdentity)
    } else {
        None
    }
}

/// `m` is `entry` with its identity completed: an absent identifier
/// becomes `fallback_uuid`, an absent session id `unknown-session`, an
/// absent timestamp `fallback_time`; the message payload's role, model,
/// stop reason, usage and id are lifted out; every other field is kept.
pub open spec fn canonical_form(entry: RawLogEntry, fallback_uuid: Seq<char>, fallback_time: Seq<char>, m: ClaudeMessage) -> bool {
    &&& m.uuid@ == match entry.uuid {
        Some(u) => u@,
        None => fallback_uuid,
    }
    &&& m.session_id@ == match entry.session_id {
        Some(s) => s@,
        None => unknown_session(),
    }
    &&& m.timestamp@ == match entry.timestamp {
        Some(t) => t@,
        None => fallback_time,
    }
    &&& m.parent_uuid == entry.parent_uuid
    &&& m.message_type == entry.message_type
    &&& m.tool_use == entry.tool_use
    &&& m.tool_use_result == entry.tool_use_result
    &&& m.is_sidechain == entry.is_sidechain
    &&& m.cost_usd == entry.cost_usd
    &&& m.duration_ms == entry.duration_ms
    &&& match entry.message {
        Some(mc) => {
            &&& m.content == Some(mc.content)
            &&& m.role == Some(mc.role)
            &&& m.model == mc.model
            &&& m.stop_reason == mc.stop_reason
            &&& m.usage == mc.usage
            &&& m.message_id == mc.id
        },
        None => {
            &&& m.content is None
            &&& m.role is None
            &&& m.model is None
            &&& m.stop_reason is None
            &&& m.usage is None
            &&& m.message_id is None
        },
    }
    &&& m.snapshot == entry.snapshot
    &&& m.is_snapshot_update == entry.is_snapshot_update
    &&& m.data == entry.data
    &&& m.tool_use_id == entry.tool_use_id
    &&& m.parent_tool_use_id == entry.parent_tool_use_id
    &&& m.operation == entry.operation
    &&& m.subtype == entry.subtype
    &&& m.level == entry.level
    &&& m.hook_count == entry.hook_count
    &&& m.hook_infos == entry.hook_infos
    &&& m.stop_reason_system == entry.stop_reason_system
    &&& m.prevented_continuation == entry.prevented_continuation
    &&& m.compact_metadata == entry.compact_metadata
    &&& m.microcompact_metadata == entry.microcompact_metadata
}

/// Whether the record is a summary record.
pub fn is_summary_kind(kind: &String) -> (r: bool)
    ensures
        r == (kind@ == summary_kind()),
{
    proof {
        reveal_strlit("summary");
        assert("summary"@ =~= summary_kind());
    }
    str_eq(kind.as_str(), "summary")
}

/// Whether the record yields a message, found without building it.
pub fn is_message_record(entry: &RawLogEntry) -> (r: bool)
    ensures
        r == (rejection_of(*entry) is None),
{
    !(is_summary_kind(&entry.message_type) || (entry.session_id.is_none() && entry.timestamp.is_none()))
}

/// Builds the message of `entry`, completing its identity with the given
/// fallbacks, or says why the record yields none.
pub fn canonicalize_with(entry: RawLogEntry, fallback_uuid: String, fallback_time: String) -> (r: Result<ClaudeMessage, Rejection>)
    ensures
        match r {
            Ok(m) => rejection_of(entry) is None && canonical_form(entry, fallback_uuid@, fallback_time@, m),
            Err(e) => rejection_of(entry) == Some(e),
        },
{
    if is_summary_kind(&entry.message_type) {
        return Err(Rejection::Summary);
    }
    if entry.session_id.is_none() && entry.timestamp.is_none() {
        return Err(Rejection::MissingIdentity);
    }
    let (content, role, model, stop_reason, usage, message_id) = match entry.message {
        Some(mc) => (Some(mc.content), Some(mc.role), mc.model, mc.stop_reason, mc.usage, mc.id),
        None => (None, None, None, None, None, None),
    };
    let uuid = match entry.uuid {
        Some(u) => u,
        None => fallback_uuid,
    };
    let session_id = match entry.session_id {
        Some(s) => s,
        None => {
            proof {
                reveal_strlit("unknown-session");
                assert("unknown-session"@ =~= unknown_session());
            }
            "unknown-session".to_owned()
        },
    };
    let timestamp = match entry.timestamp {
        Some(t) => t,
        None => fallback_time,
    };
    Ok(ClaudeMessage {
        uuid,
        parent_uuid: entry.parent_uuid,
        session_id,
        timestamp,
        message_type: entry.message_type,
        content,
        tool_use: entry.tool_use,
        tool_use_result: entry.tool_use_result,
        is_sidechain: entry.is_sidechain,
        usage,
        role,
        model,
        stop_reason,
        cost_usd: entry.cost_usd,
        duration_ms: entry.duration_ms,
        message_id,
        snapshot: entry.snapshot,
        is_snapshot_update: entry.is_snapshot_update,
        data: entry.data,
        tool_use_id: entry.tool_use_id,
        parent_tool_use_id: entry.parent_tool_use_id,
        operation: entry.operation,
        subtype: entry.subtype,
        level: entry.level,
        hook_count: entry.hook_count,
        hook_infos: entry.hook_infos,
        stop_reason_system: entry.stop_reason_system,
        prevented_continuation: entry.prevented_continuation,
        compact_metadata: entry.compact_metadata,
        microcompact_metadata: entry.microcompact_metadata,
    })
}

/// Relies on `uuid::Uuid::new_v4`, written in its hyphenated text form,
/// which always has 36 characters. The value is random: nothing more is
/// promised of it.
#[verifier::external_body]
pub(crate) fn fresh_uuid() -> (r: String)
    ensures
        r@.len() == 36,
{
    uuid::Uuid::new_v4().to_string()
}

/// Relies on `chrono::Utc::now` and `DateTime::to_rfc3339`: the current
/// time, which nothing here can predict, as non-empty text.
#[verifier::external_body]
pub(crate) fn now_rfc3339() -> (r: String)
    ensures
        r@.len() > 0,
{
    chrono::Utc::now().to_rfc3339()
}

/// Builds the message of `entry`, generating a fresh identifier and using
/// the current time where the record lacks them, or says why the record
/// yields none.
pub fn canonicalize(entry: RawLogEntry) -> (r: Result<ClaudeMessage, Rejection>)
    ensures
        match r {
            Ok(m) => {
                &&& rejection_of(entry) is None
                &&& exists|u: Seq<char>, t: Seq<char>| u.len() == 36 && t.len() > 0 && canonical_form(entry, u, t, m)
                &&& entry.uuid is None ==> m.uuid@.len() == 36
                &&& entry.timestamp is None ==> m.timestamp@.len() > 0
            },
            Err(e) => rejection_of(entry) == Some(e),
        },
{
    let needs_uuid = entry.uuid.is_none();
    let needs_time = entry.timestamp.is_none();
    let rejected = is_summary_kind(&entry.message_type) || (entry.session_id.is_none() && needs_time);
    let fallback_uuid = if needs_uuid && !rejected { fresh_uuid() } else { String::new() };
    let fallback_time = if needs_time && !rejected { now_rfc3339() } else { String::new() };
    let ghost u = if needs_uuid { fallback_uuid@ } else { Seq::new(36, |i: int| '0') };
    let ghost t = if needs_time { fallback_time@ } else { seq!['0'] };
    let r = canonicalize_with(entry, fallback_uuid, fallback_time);
    proof {
        if r is Ok {
            assert(u.len() == 36 && t.len() > 0 && canonical_form(entry, u, t, r->Ok_0));
        }
    }
    r
}

} // verus!
