//! Reconstructing file contents from the edit and write operations
//! recorded in session logs.

use vstd::prelude::*;
use crate::json::Json;
use crate::models::{RawLogEntry, RecentFileEdit};
use crate::text::{count_lines, line_count, replace_first, replace_first_exec};
use crate::usage::str_is;

verus! {

/// A recorded edit, as plain values.
pub struct EditView {
    pub file_path: Seq<char>,
    pub timestamp: Seq<char>,
    pub session_id: Seq<char>,
    pub operation_type: Seq<char>,
    pub content_after_change: Seq<char>,
    pub original_content: Option<Seq<char>>,
    pub lines_added: nat,
    pub lines_removed: nat,
    pub cwd: Option<Seq<char>>,
}

pub open spec fn opt_view(s: Option<String>) -> Option<Seq<char>> {
    match s {
        Some(x) => Some(x@),
        None => None,
    }
}

impl View for RecentFileEdit {
    type V = EditView;

    open spec fn view(&self) -> EditView {
        EditView {
            file_path: self.file_path@,
            timestamp: self.timestamp@,
            session_id: self.session_id@,
            operation_type: self.operation_type@,
            content_after_change: self.content_after_change@,
            original_content: opt_view(self.original_content),
            lines_added: self.lines_added as nat,
            lines_removed: self.lines_removed as nat,
            cwd: opt_view(self.cwd),
        }
    }
}

/// `a + b`, held at the largest `usize`.
pub open spec fn sat_add(a: nat, b: nat) -> nat {
    if a + b > usize::MAX {
        usize::MAX as nat
    } else {
        a + b
    }
}

/// The text member `key` of an optional JSON value.
pub open spec fn text_at(v: Option<Json>, key: Seq<char>) -> Option<Seq<char>> {
    match v {
        Some(j) => j.field_text(key),
        None => None,
    }
}

/// The content and line counts after applying the first `edits.len()`
/// steps to `original`, in order. A step that names both an old and a new
/// string replaces the first occurrence of the old one and counts the
/// lines of both; any other step changes nothing.
pub open spec fn replay(original: Seq<char>, edits: Seq<Json>) -> (Seq<char>, nat, nat)
    decreases edits.len(),
{
    if edits.len() == 0 {
        (original, 0, 0)
    } else {
        let (content, added, removed) = replay(original, edits.drop_last());
        let e = edits.last();
        match (e.field_text("old_string"@), e.field_text("new_string"@)) {
            (Some(old), Some(new)) => (
                replace_first(content, old, new),
                sat_add(added, line_count(new)),
                sat_add(removed, line_count(old)),
            ),
            _ => (content, added, removed),
        }
    }
}

/// Replaying the same edits on the same original always gives the same
/// content and counts.
pub proof fn lemma_replay_deterministic(original: Seq<char>, edits: Seq<Json>, o2: Seq<char>, e2: Seq<Json>)
    requires
        original == o2,
        edits == e2,
    ensures
        replay(original, edits) == replay(o2, e2),
{
}

/// The steps of an `edits` member: its items where it is an array, none otherwise.
pub open spec fn edit_steps(v: Option<Json>) -> Seq<Json> {
    match v {
        Some(Json::Array(items)) => items@,
        _ => Seq::empty(),
    }
}

/// The common fields of the edits a record yields.
pub open spec fn stamp(e: RawLogEntry) -> (Seq<char>, Seq<char>, Option<Seq<char>>) {
    (
        match e.timestamp {
            Some(t) => t@,
            None => Seq::empty(),
        },
        match e.session_id {
            Some(s) => s@,
            None => "unknown"@,
        },
        opt_view(e.cwd),
    )
}

/// A write of `content` to `path`.
pub open spec fn write_view(e: RawLogEntry, path: Seq<char>, content: Seq<char>) -> EditView {
    EditView {
        file_path: path,
        timestamp: stamp(e).0,
        session_id: stamp(e).1,
        operation_type: "write"@,
        content_after_change: content,
        original_content: None,
        lines_added: line_count(content),
        lines_removed: 0,
        cwd: stamp(e).2,
    }
}

/// An edit of `path` from `original` to `content`.
pub open spec fn edit_view(e: RawLogEntry, path: Seq<char>, original: Seq<char>, content: Seq<char>, added: nat, removed: nat) -> EditView {
    EditView {
        file_path: path,
        timestamp: stamp(e).0,
        session_id: stamp(e).1,
        operation_type: "edit"@,
        content_after_change: content,
        original_content: Some(original),
        lines_added: added,
        lines_removed: removed,
        cwd: stamp(e).2,
    }
}

/// The write reported by a tool result of type `create`.
pub open spec fn created(e: RawLogEntry) -> Seq<EditView> {
    let r = e.tool_use_result;
    if text_at(r, "type"@) == Some("create"@) && text_at(r, "filePath"@) is Some && text_at(r, "content"@) is Some {
        seq![write_view(e, text_at(r, "filePath"@)->Some_0, text_at(r, "content"@)->Some_0)]
    } else {
        Seq::empty()
    }
}

/// The edit reported by a tool result: a list of steps replayed on the
/// original file, or a single replacement.
pub open spec fn edited(e: RawLogEntry) -> Seq<EditView> {
    let r = e.tool_use_result;
    match text_at(r, "filePath"@) {
        Some(path) => {
            let edits_member = match r {
                Some(j) => j.field("edits"@),
                None => None,
            };
            match text_at(r, "originalFile"@) {
                Some(original) => if edits_member is Some {
                    let (content, added, removed) = replay(original, edit_steps(edits_member));
                    seq![edit_view(e, path, original, content, added, removed)]
                } else {
                    match (text_at(r, "oldString"@), text_at(r, "newString"@)) {
                        (Some(old), Some(new)) => seq![edit_view(
                            e, path, original, replace_first(original, old, new), line_count(new), line_count(old),
                        )],
                        _ => Seq::empty(),
                    }
                },
                None => Seq::empty(),
            }
        },
        None => Seq::empty(),
    }
}

/// The write reported by an invocation of the `Write` tool, unless the
/// record already reported a created file: a record yields at most one
/// write.
pub open spec fn written(e: RawLogEntry) -> Seq<EditView> {
    let input = match e.tool_use {
        Some(j) => j.field("input"@),
        None => None,
    };
    if created(e).len() == 0 && text_at(e.tool_use, "name"@) == Some("Write"@) && text_at(input, "file_path"@) is Some
        && text_at(input, "content"@) is Some {
        seq![write_view(e, text_at(input, "file_path"@)->Some_0, text_at(input, "content"@)->Some_0)]
    } else {
        Seq::empty()
    }
}

/// Every edit a record yields, in this order: a created file, an edit, a
/// file written by the `Write` tool (only where no file was created).
pub open spec fn record_edits(e: RawLogEntry) -> Seq<EditView> {
    created(e) + edited(e) + written(e)
}

/// A record yields at most one write and at most one edit.
pub proof fn lemma_one_of_each_kind(e: RawLogEntry)
    ensures
        created(e).len() + written(e).len() <= 1,
        edited(e).len() <= 1,
{
}

fn text_of<'a>(v: Option<&'a Json>, key: &str) -> (r: Option<&'a String>)
    ensures
        match r {
            Some(s) => text_at(match v { Some(j) => Some(*j), None => None::<Json> }, key@) == Some(s@),
            None => text_at(match v { Some(j) => Some(*j), None => None::<Json> }, key@) is None,
        },
{
    match v {
        Some(j) => j.get_str(key),
        None => None,
    }
}

fn sat_add_exec(a: usize, b: usize) -> (r: usize)
    ensures
        r == sat_add(a as nat, b as nat),
{
    if a > usize::MAX - b { usize::MAX } else { a + b }
}

/// Replays `edits` on `original`, as `replay` describes.
pub fn replay_edits(original: &str, edits: &Vec<Json>) -> (r: (String, usize, usize))
    ensures
        (r.0@, r.1 as nat, r.2 as nat) == replay(original@, edits@),
{
    let mut content = original.to_owned();
    let mut added: usize = 0;
    let mut removed: usize = 0;
    let mut i: usize = 0;
    while i < edits.len()
        invariant
            i <= edits@.len(),
            (content@, added as nat, removed as nat) == replay(original@, edits@.subrange(0, i as int)),
        decreases edits@.len() - i,
    {
        assert(edits@.subrange(0, i + 1).drop_last() =~= edits@.subrange(0, i as int));
        let e = &edits[i];
        match (e.get_str("old_string"), e.get_str("new_string")) {
            (Some(old), Some(new)) => {
                content = replace_first_exec(content.as_str(), old.as_str(), new.as_str());
                removed = sat_add_exec(removed, count_lines(old.as_str()));
                added = sat_add_exec(added, count_lines(new.as_str()));
            },
            _ => {},
        }
        i = i + 1;
    }
    assert(edits@.subrange(0, edits@.len() as int) =~= edits@);
    (content, added, removed)
}

fn make_write(path: &String, content: &String, ts: &String, sid: &String, cwd: &Option<String>) -> (r: RecentFileEdit)
    ensures
        r@.file_path == path@,
        r@.content_after_change == content@,
        r@.timestamp == ts@,
        r@.session_id == sid@,
        r@.cwd == opt_view(*cwd),
        r@.operation_type == "write"@,
        r@.original_content is None,
        r@.lines_added == line_count(content@),
        r@.lines_removed == 0,
{
    RecentFileEdit {
        file_path: path.clone(),
        timestamp: ts.clone(),
        session_id: sid.clone(),
        operation_type: "write".to_owned(),
        content_after_change: content.clone(),
        original_content: None,
        lines_added: count_lines(content.as_str()),
        lines_removed: 0,
        cwd: cwd.clone(),
    }
}

/// The edits one record yields, as `record_edits` describes.
pub fn edits_from_entry(entry: &RawLogEntry) -> (r: Vec<RecentFileEdit>)
    ensures
        r@.map_values(|x: RecentFileEdit| x@) == record_edits(*entry),
{
    let ts = match &entry.timestamp {
        Some(t) => t.clone(),
        None => String::new(),
    };
    let sid = match &entry.session_id {
        Some(s) => s.clone(),
        None => "unknown".to_owned(),
    };
    let cwd = entry.cwd.clone();
    let ghost st = stamp(*entry);
    assert(ts@ == st.0 && sid@ == st.1 && opt_view(cwd) == st.2);
    let mut out: Vec<RecentFileEdit> = Vec::new();
    let result = match &entry.tool_use_result {
        Some(j) => Some(j),
        None => None,
    };
    // A created file.
    let kind = text_of(result, "type");
    let is_create = match kind {
        Some(k) => str_is(k, "create"),
        None => false,
    };
    if is_create {
        match (text_of(result, "filePath"), text_of(result, "content")) {
            (Some(path), Some(content)) => {
                out.push(make_write(path, content, &ts, &sid, &cwd));
            },
            _ => {},
        }
    }
    assert(out@.map_values(|x: RecentFileEdit| x@) =~= created(*entry));
    let created_one = out.len() > 0;
    // An edited file.
    match text_of(result, "filePath") {
        Some(path) => {
            let edits_member = match result {
                Some(j) => j.get("edits"),
                None => None,
            };
            match text_of(result, "originalFile") {
                Some(original) => {
                    match edits_member {
                        Some(em) => {
                            let empty: Vec<Json> = Vec::new();
                            let steps = match em {
                                Json::Array(items) => items,
                                _ => &empty,
                            };
                            let (content, added, removed) = replay_edits(original.as_str(), steps);
                            out.push(RecentFileEdit {
                                file_path: path.clone(),
                                timestamp: ts.clone(),
                                session_id: sid.clone(),
                                operation_type: "edit".to_owned(),
                                content_after_change: content,
                                original_content: Some(original.clone()),
                                lines_added: added,
                                lines_removed: removed,
                                cwd: cwd.clone(),
                            });
                        },
                        None => {
                            match (text_of(result, "oldString"), text_of(result, "newString")) {
                                (Some(old), Some(new)) => {
                                    let content = replace_first_exec(original.as_str(), old.as_str(), new.as_str());
                                    out.push(RecentFileEdit {
                                        file_path: path.clone(),
                                        timestamp: ts.clone(),
                                        session_id: sid.clone(),
                                        operation_type: "edit".to_owned(),
                                        content_after_change: content,
                                        original_content: Some(original.clone()),
                                        lines_added: count_lines(new.as_str()),
                                        lines_removed: count_lines(old.as_str()),
                                        cwd: cwd.clone(),
                                    });
                                },
                                _ => {},
                            }
                        },
                    }
                },
                None => {},
            }
        },
        None => {},
    }
    assert(out@.map_values(|x: RecentFileEdit| x@) =~= created(*entry) + edited(*entry));
    // A file written by the `Write` tool.
    let invocation = match &entry.tool_use {
        Some(j) => Some(j),
        None => None,
    };
    let input = match invocation {
        Some(j) => j.get("input"),
        None => None,
    };
    let is_write = match text_of(invocation, "name") {
        Some(n) => str_is(n, "Write"),
        None => false,
    };
    if is_write && !created_one {
        match (text_of(input, "file_path"), text_of(input, "content")) {
            (Some(path), Some(content)) => {
                out.push(make_write(path, content, &ts, &sid, &cwd));
            },
            _ => {},
        }
    }
    assert(out@.map_values(|x: RecentFileEdit| x@) =~= record_edits(*entry));
    out
}

} // verus!
