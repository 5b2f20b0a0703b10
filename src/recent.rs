//! The latest content of each file a project's sessions edited.

use vstd::prelude::*;
use vstd::seq_lib::{to_multiset_build, to_multiset_insert, to_multiset_len, to_multiset_contains};
use vstd::multiset::lemma_multiset_empty_len;
use crate::edits::{edits_from_entry, opt_view, record_edits, sat_add, EditView};
use crate::json::str_eq;
use crate::models::{RawLogEntry, RecentFileEdit};
use crate::order::{lemma_less_total, lemma_less_transitive, seq_less, str_less};
use crate::text::{chars_of, lower_of, lowercase_query};

verus! {

/// The views of a list of edits.
pub open spec fn views(s: Seq<RecentFileEdit>) -> Seq<EditView> {
    s.map_values(|x: RecentFileEdit| x@)
}

/// How often `key` occurs in a list of counts whose keys are unique.
pub open spec fn count_in(v: Seq<(String, usize)>, key: Seq<char>) -> nat
    decreases v.len(),
{
    if v.len() == 0 {
        0
    } else if v.last().0@ == key {
        v.last().1 as nat
    } else {
        count_in(v.drop_last(), key)
    }
}

/// Each key occurs once.
pub open spec fn keys_unique(v: Seq<(String, usize)>) -> bool {
    forall|i: int, j: int| 0 <= i < j < v.len() ==> (#[trigger] v[i]).0@ != (#[trigger] v[j]).0@
}

proof fn lemma_count_absent(v: Seq<(String, usize)>, key: Seq<char>)
    requires
        forall|i: int| 0 <= i < v.len() ==> (#[trigger] v[i]).0@ != key,
    ensures
        count_in(v, key) == 0,
    decreases v.len(),
{
    if v.len() > 0 {
        lemma_count_absent(v.drop_last(), key);
    }
}

proof fn lemma_count_bound(v: Seq<(String, usize)>, key: Seq<char>)
    ensures
        count_in(v, key) <= usize::MAX,
    decreases v.len(),
{
    if v.len() > 0 {
        lemma_count_bound(v.drop_last(), key);
    }
}

proof fn lemma_count_at(v: Seq<(String, usize)>, i: int)
    requires
        keys_unique(v),
        0 <= i < v.len(),
    ensures
        count_in(v, v[i].0@) == v[i].1,
    decreases v.len(),
{
    if i < v.len() - 1 {
        lemma_count_at(v.drop_last(), i);
    }
}

proof fn lemma_count_update(v: Seq<(String, usize)>, i: int, c: usize, key: Seq<char>)
    requires
        keys_unique(v),
        0 <= i < v.len(),
    ensures
        count_in(v.update(i, (v[i].0, c)), key) == if key == v[i].0@ { c as nat } else { count_in(v, key) },
    decreases v.len(),
{
    let w = v.update(i, (v[i].0, c));
    if i == v.len() - 1 {
        assert(w.drop_last() =~= v.drop_last());
        if key != v[i].0@ {
        } else {
        }
    } else {
        assert(w.drop_last() =~= v.drop_last().update(i, (v[i].0, c)));
        lemma_count_update(v.drop_last(), i, c, key);
    }
}

/// Adds `by` to the count of `key`, held at the largest `usize`.
fn bump(counts: &mut Vec<(String, usize)>, key: &String, by: usize)
    requires
        keys_unique(old(counts)@),
    ensures
        keys_unique(final(counts)@),
        forall|k: Seq<char>| #[trigger] count_in(final(counts)@, k) == if k == key@ {
            sat_add(count_in(old(counts)@, k), by as nat)
        } else {
            count_in(old(counts)@, k)
        },
{
    let mut i: usize = 0;
    while i < counts.len()
        invariant
            counts@ == old(counts)@,
            keys_unique(counts@),
            i <= counts@.len(),
            forall|j: int| 0 <= j < i ==> (#[trigger] counts@[j]).0@ != key@,
        decreases counts@.len() - i,
    {
        if str_eq(counts[i].0.as_str(), key.as_str()) {
            let ghost before = counts@;
            let c = counts[i].1;
            let n = if c > usize::MAX - by { usize::MAX } else { c + by };
            let k = counts[i].0.clone();
            counts.set(i, (k, n));
            proof {
                assert(counts@ == before.update(i as int, (before[i as int].0, n)));
                lemma_count_at(before, i as int);
                assert forall|k: Seq<char>| #[trigger] count_in(counts@, k) == if k == key@ {
                    sat_add(count_in(before, k), by as nat)
                } else {
                    count_in(before, k)
                } by {
                    lemma_count_update(before, i as int, n, k);
                }
                assert forall|a: int, b: int| 0 <= a < b < counts@.len() implies (#[trigger] counts@[a]).0@ != (#[trigger] counts@[b]).0@ by {
                    assert(before[a].0@ != before[b].0@);
                }
            }
            return;
        }
        i = i + 1;
    }
    let ghost before = counts@;
    counts.push((key.clone(), by));
    proof {
        assert forall|k: Seq<char>| #[trigger] count_in(counts@, k) == if k == key@ {
            sat_add(count_in(before, k), by as nat)
        } else {
            count_in(before, k)
        } by {
            assert(counts@.drop_last() =~= before);
            if k == key@ {
                lemma_count_absent(before, k);
            }
        }
    }
}

/// What the per-file pass over a session log gathers: the edits found, in
/// order, and how often each working directory was recorded.
pub struct EditScan {
    pub edits: Vec<RecentFileEdit>,
    pub cwd_counts: Vec<(String, usize)>,
}

impl EditScan {
    /// Working directories are counted once each.
    pub open spec fn wf(&self) -> bool {
        keys_unique(self.cwd_counts@)
    }

    /// Nothing gathered yet.
    pub fn new() -> (r: EditScan)
        ensures
            r.wf(),
            r.edits@.len() == 0,
            forall|k: Seq<char>| count_in(r.cwd_counts@, k) == 0,
    {
        EditScan { edits: Vec::new(), cwd_counts: Vec::new() }
    }

    /// Takes in one record: its edits are appended, and its working
    /// directory, if it has one, is counted.
    pub fn add_entry(&mut self, entry: &RawLogEntry)
        requires
            old(self).wf(),
        ensures
            final(self).wf(),
            views(final(self).edits@) == views(old(self).edits@) + record_edits(*entry),
            forall|k: Seq<char>| #[trigger] count_in(final(self).cwd_counts@, k) == if opt_view(entry.cwd) == Some(k) {
                sat_add(count_in(old(self).cwd_counts@, k), 1)
            } else {
                count_in(old(self).cwd_counts@, k)
            },
    {
        match &entry.cwd {
            Some(c) => bump(&mut self.cwd_counts, c, 1),
            None => {},
        }
        let found = edits_from_entry(entry);
        let ghost before = self.edits@;
        let ghost counted = self.cwd_counts@;
        let mut i: usize = 0;
        while i < found.len()
            invariant
                self.cwd_counts@ == counted,
                i <= found@.len(),
                views(self.edits@) == views(before) + views(found@).subrange(0, i as int),
            decreases found@.len() - i,
        {
            let ghost prev = self.edits@;
            let x = found[i].clone_edit();
            self.edits.push(x);
            assert(views(self.edits@) =~= views(prev).push(x@));
            assert(views(self.edits@) =~= views(before) + views(found@).subrange(0, i + 1));
            i = i + 1;
        }
        assert(views(found@).subrange(0, found@.len() as int) =~= views(found@));
    }

    /// Folds in what another file's pass gathered: its edits are appended
    /// and its counts added.
    pub fn merge(&mut self, other: EditScan)
        requires
            old(self).wf(),
            other.wf(),
        ensures
            final(self).wf(),
            views(final(self).edits@) == views(old(self).edits@) + views(other.edits@),
            forall|k: Seq<char>| #[trigger] count_in(final(self).cwd_counts@, k)
                == sat_add(count_in(old(self).cwd_counts@, k), count_in(other.cwd_counts@, k)),
    {
        let ghost start = self.cwd_counts@;
        assert forall|k: Seq<char>| #[trigger] count_in(self.cwd_counts@, k)
            == sat_add(count_in(start, k), count_in(other.cwd_counts@.subrange(0, 0), k)) by {
            lemma_count_bound(start, k);
        }
        let mut i: usize = 0;
        while i < other.cwd_counts.len()
            invariant
                keys_unique(self.cwd_counts@),
                keys_unique(other.cwd_counts@),
                i <= other.cwd_counts@.len(),
                views(self.edits@) == views(old(self).edits@),
                start == old(self).cwd_counts@,
                forall|k: Seq<char>| #[trigger] count_in(self.cwd_counts@, k)
                    == sat_add(count_in(start, k), count_in(other.cwd_counts@.subrange(0, i as int), k)),
            decreases other.cwd_counts@.len() - i,
        {
            let ghost before = self.cwd_counts@;
            let ghost pre = other.cwd_counts@.subrange(0, i as int);
            let ghost post = other.cwd_counts@.subrange(0, i + 1);
            bump(&mut self.cwd_counts, &other.cwd_counts[i].0, other.cwd_counts[i].1);
            proof {
                let key = other.cwd_counts@[i as int].0@;
                assert(post.drop_last() =~= pre);
                assert forall|j: int| 0 <= j < pre.len() implies (#[trigger] pre[j]).0@ != key by {
                    assert(other.cwd_counts@[j].0@ != other.cwd_counts@[i as int].0@);
                }
                lemma_count_absent(pre, key);
                lemma_count_bound(start, key);
                assert forall|k: Seq<char>| #[trigger] count_in(self.cwd_counts@, k)
                    == sat_add(count_in(start, k), count_in(post, k)) by {
                    lemma_count_bound(start, k);
                }
            }
            i = i + 1;
        }
        assert(other.cwd_counts@.subrange(0, other.cwd_counts@.len() as int) =~= other.cwd_counts@);
        let ghost before = self.edits@;
        let ghost counted = self.cwd_counts@;
        let mut j: usize = 0;
        while j < other.edits.len()
            invariant
                self.cwd_counts@ == counted,
                keys_unique(self.cwd_counts@),
                j <= other.edits@.len(),
                views(self.edits@) == views(before) + views(other.edits@).subrange(0, j as int),
            decreases other.edits@.len() - j,
        {
            let ghost prev = self.edits@;
            let x = other.edits[j].clone_edit();
            self.edits.push(x);
            assert(views(self.edits@) =~= views(prev).push(x@));
            assert(views(self.edits@) =~= views(before) + views(other.edits@).subrange(0, j + 1));
            j = j + 1;
        }
        assert(views(other.edits@).subrange(0, other.edits@.len() as int) =~= views(other.edits@));
    }
}

/// The edits of a file's records, in order.
pub open spec fn file_edits(records: Seq<RawLogEntry>) -> Seq<EditView>
    decreases records.len(),
{
    if records.len() == 0 {
        Seq::empty()
    } else {
        file_edits(records.drop_last()) + record_edits(records.last())
    }
}

/// How often a file's records give `k` as working directory, held at the
/// largest `usize`.
pub open spec fn cwd_count(records: Seq<RawLogEntry>, k: Seq<char>) -> nat
    decreases records.len(),
{
    if records.len() == 0 {
        0
    } else if opt_view(records.last().cwd) == Some(k) {
        sat_add(cwd_count(records.drop_last(), k), 1)
    } else {
        cwd_count(records.drop_last(), k)
    }
}

impl EditScan {
    /// The pass over one file's records, in order: every edit they yield and
    /// how often each working directory occurs.
    pub fn from_records(records: &Vec<RawLogEntry>) -> (r: EditScan)
        ensures
            r.wf(),
            views(r.edits@) == file_edits(records@),
            forall|k: Seq<char>| #[trigger] count_in(r.cwd_counts@, k) == cwd_count(records@, k),
    {
        let mut scan = EditScan::new();
        let mut i: usize = 0;
        while i < records.len()
            invariant
                scan.wf(),
                i <= records@.len(),
                views(scan.edits@) == file_edits(records@.subrange(0, i as int)),
                forall|k: Seq<char>| #[trigger] count_in(scan.cwd_counts@, k) == cwd_count(records@.subrange(0, i as int), k),
            decreases records@.len() - i,
        {
            assert(records@.subrange(0, i + 1).drop_last() =~= records@.subrange(0, i as int));
            scan.add_entry(&records[i]);
            i = i + 1;
        }
        assert(records@.subrange(0, records@.len() as int) =~= records@);
        scan
    }
}

/// Scanning the same records twice gives the same edits and counts.
pub proof fn lemma_file_scan_deterministic(a: Seq<RawLogEntry>, b: Seq<RawLogEntry>)
    requires
        a == b,
    ensures
        file_edits(a) == file_edits(b),
        forall|k: Seq<char>| cwd_count(a, k) == cwd_count(b, k),
{
}

impl RecentFileEdit {
    /// A copy of this edit.
    pub fn clone_edit(&self) -> (r: RecentFileEdit)
        ensures
            r@ == self@,
    {
        RecentFileEdit {
            file_path: self.file_path.clone(),
            timestamp: self.timestamp.clone(),
            session_id: self.session_id.clone(),
            operation_type: self.operation_type.clone(),
            content_after_change: self.content_after_change.clone(),
            original_content: self.original_content.clone(),
            lines_added: self.lines_added,
            lines_removed: self.lines_removed,
            cwd: self.cwd.clone(),
        }
    }
}

/// The most frequent key: one whose count no other key exceeds (which of
/// several equal ones is left open). `None` when there are no keys.
pub fn most_common(counts: &Vec<(String, usize)>) -> (r: Option<String>)
    ensures
        r is None <==> counts@.len() == 0,
        r matches Some(c) ==> exists|i: int| 0 <= i < counts@.len() && (#[trigger] counts@[i]).0@ == c@
            && forall|j: int| 0 <= j < counts@.len() ==> (#[trigger] counts@[j]).1 <= counts@[i].1,
{
    if counts.len() == 0 {
        return None;
    }
    let mut best: usize = 0;
    let mut i: usize = 1;
    while i < counts.len()
        invariant
            1 <= i <= counts@.len(),
            best < i,
            forall|j: int| 0 <= j < i ==> (#[trigger] counts@[j]).1 <= counts@[best as int].1,
        decreases counts@.len() - i,
    {
        if counts[i].1 > counts[best].1 {
            best = i;
        }
        i = i + 1;
    }
    Some(counts[best].0.clone())
}

/// `p` is a prefix of `s`.
pub open spec fn has_prefix(s: Seq<char>, p: Seq<char>) -> bool {
    p.len() <= s.len() && s.subrange(0, p.len() as int) == p
}

/// Whether `p` is a prefix of `s`.
pub fn starts_with(s: &str, p: &str) -> (r: bool)
    ensures
        r == has_prefix(s@, p@),
{
    let x = chars_of(s);
    let y = chars_of(p);
    if y.len() > x.len() {
        return false;
    }
    let mut i: usize = 0;
    while i < y.len()
        invariant
            x@ == s@,
            y@ == p@,
            y@.len() <= x@.len(),
            i <= y@.len(),
            forall|j: int| 0 <= j < i ==> x@[j] == y@[j],
        decreases y@.len() - i,
    {
        if x[i] != y[i] {
            assert(s@.subrange(0, p@.len() as int)[i as int] != p@[i as int]);
            return false;
        }
        i = i + 1;
    }
    assert(s@.subrange(0, p@.len() as int) =~= p@);
    true
}

/// An edit lies in the project: its path starts with the project's
/// working directory, where one is known; with `fold_case`, both are
/// compared lowercased.
pub open spec fn in_project(e: EditView, cwd: Option<Seq<char>>, fold_case: bool) -> bool {
    match cwd {
        Some(c) => if fold_case {
            has_prefix(lower_of(e.file_path), lower_of(c))
        } else {
            has_prefix(e.file_path, c)
        },
        None => true,
    }
}

/// The edits of `s` that lie in the project, in order.
pub open spec fn project_edits(s: Seq<EditView>, cwd: Option<Seq<char>>, fold_case: bool) -> Seq<EditView>
    decreases s.len(),
{
    if s.len() == 0 {
        s
    } else if in_project(s.last(), cwd, fold_case) {
        project_edits(s.drop_last(), cwd, fold_case).push(s.last())
    } else {
        project_edits(s.drop_last(), cwd, fold_case)
    }
}

/// Keeps the edits that lie in the project, in order.
pub fn filter_to_project(edits: &Vec<RecentFileEdit>, cwd: &Option<String>, fold_case: bool) -> (r: Vec<RecentFileEdit>)
    ensures
        views(r@) == project_edits(views(edits@), opt_view(*cwd), fold_case),
{
    let folded_cwd = match cwd {
        Some(c) => if fold_case { Some(lowercase_query(c.as_str())) } else { None },
        None => None,
    };
    let mut out: Vec<RecentFileEdit> = Vec::new();
    let mut i: usize = 0;
    while i < edits.len()
        invariant
            i <= edits@.len(),
            views(out@) == project_edits(views(edits@).subrange(0, i as int), opt_view(*cwd), fold_case),
            fold_case && cwd is Some ==> (folded_cwd matches Some(f) && f@ == lower_of(cwd->Some_0@)),
        decreases edits@.len() - i,
    {
        assert(views(edits@).subrange(0, i + 1).drop_last() =~= views(edits@).subrange(0, i as int));
        let keep = match cwd {
            Some(c) => if fold_case {
                let path = lowercase_query(edits[i].file_path.as_str());
                match &folded_cwd {
                    Some(f) => starts_with(path.as_str(), f.as_str()),
                    None => true,
                }
            } else {
                starts_with(edits[i].file_path.as_str(), c.as_str())
            },
            None => true,
        };
        if keep {
            let ghost prev = out@;
            let x = edits[i].clone_edit();
            out.push(x);
            assert(views(out@) =~= views(prev).push(x@));
        }
        i = i + 1;
    }
    assert(views(edits@).subrange(0, edits@.len() as int) =~= views(edits@));
    out
}

/// The timestamps do not ascend anywhere: newest first.
pub open spec fn newest_first(s: Seq<RecentFileEdit>) -> bool {
    forall|i: int, j: int| 0 <= i < j < s.len() ==> !seq_less((#[trigger] s[i]).timestamp@, (#[trigger] s[j]).timestamp@)
}

/// Not sorting before is transitive.
pub proof fn lemma_not_less_transitive(a: Seq<char>, b: Seq<char>, c: Seq<char>)
    requires
        !seq_less(a, b),
        !seq_less(b, c),
    ensures
        !seq_less(a, c),
{
    lemma_less_total(a, b);
    lemma_less_total(b, c);
    if seq_less(a, c) {
        if a == b {
        } else {
            lemma_less_transitive(b, a, c);
        }
    }
}

/// Orders edits newest first; the result holds exactly the edits given.
pub fn sort_newest_first(items: Vec<RecentFileEdit>) -> (r: Vec<RecentFileEdit>)
    ensures
        newest_first(r@),
        r@.to_multiset() == items@.to_multiset(),
{
    broadcast use vstd::multiset::group_multiset_axioms;
    let mut rest = items;
    let ghost original = rest@;
    let mut out: Vec<RecentFileEdit> = Vec::new();
    proof {
        to_multiset_len(out@);
        lemma_multiset_empty_len(out@.to_multiset());
    }
    assert(out@.to_multiset().add(rest@.to_multiset()) =~= original.to_multiset());
    while rest.len() > 0
        invariant
            newest_first(out@),
            out@.to_multiset().add(rest@.to_multiset()) == original.to_multiset(),
        decreases rest@.len(),
    {
        let ghost before = rest@;
        let item = rest.pop().unwrap();
        assert(before == rest@.push(item));
        proof {
            to_multiset_build(rest@, item);
        }
        let mut pos: usize = 0;
        while pos < out.len() && str_less(item.timestamp.as_str(), out[pos].timestamp.as_str())
            invariant
                pos <= out@.len(),
                forall|k: int| 0 <= k < pos ==> seq_less(item.timestamp@, (#[trigger] out@[k]).timestamp@),
            decreases out@.len() - pos,
        {
            pos = pos + 1;
        }
        let ghost old_out = out@;
        out.insert(pos, item);
        proof {
            to_multiset_insert(old_out, pos as int, item);
            assert(out@.to_multiset().add(rest@.to_multiset()) =~= old_out.to_multiset().add(before.to_multiset()));
            assert forall|i: int, j: int| 0 <= i < j < out@.len() implies !seq_less((#[trigger] out@[i]).timestamp@, (#[trigger] out@[j]).timestamp@) by {
                let t = item.timestamp@;
                if j < pos {
                } else if j == pos {
                    lemma_less_total(t, old_out[i].timestamp@);
                } else if i < pos {
                } else if i == pos {
                    lemma_less_total(old_out[pos as int].timestamp@, old_out[pos as int].timestamp@);
                    lemma_not_less_transitive(t, old_out[pos as int].timestamp@, old_out[j - 1].timestamp@);
                } else {
                }
            }
        }
    }
    proof {
        to_multiset_len(rest@);
        lemma_multiset_empty_len(rest@.to_multiset());
    }
    assert(out@.to_multiset() =~= out@.to_multiset().add(rest@.to_multiset()));
    out
}

/// `files` holds one edit for each path among `all`: an edit of `all`
/// with no later timestamp for its path.
pub open spec fn latest_per_file(all: Seq<EditView>, files: Seq<EditView>) -> bool {
    &&& forall|i: int| 0 <= i < files.len() ==> all.contains(#[trigger] files[i])
    &&& forall|i: int, j: int| 0 <= i < j < files.len() ==> (#[trigger] files[i]).file_path != (#[trigger] files[j]).file_path
    &&& forall|k: int| 0 <= k < all.len() ==> #[trigger] has_path(files, all[k].file_path)
    &&& forall|i: int, k: int| 0 <= i < files.len() && 0 <= k < all.len() && (#[trigger] files[i]).file_path == (#[trigger] all[k]).file_path
        ==> !seq_less(files[i].timestamp, all[k].timestamp)
}

/// Some edit of `files` is of path `p`.
pub open spec fn has_path(files: Seq<EditView>, p: Seq<char>) -> bool {
    exists|i: int| 0 <= i < files.len() && files[i].file_path == p
}

/// The timestamps do not ascend anywhere.
pub open spec fn views_newest_first(s: Seq<EditView>) -> bool {
    forall|i: int, j: int| 0 <= i < j < s.len() ==> !seq_less((#[trigger] s[i]).timestamp, (#[trigger] s[j]).timestamp)
}

/// `files` keeps the first edit of each path of `sorted`, in order; `idx`
/// says where each came from.
pub open spec fn first_per_path(sorted: Seq<EditView>, files: Seq<EditView>, idx: Seq<int>) -> bool {
    &&& idx.len() == files.len()
    &&& forall|i: int| 0 <= i < idx.len() ==> 0 <= #[trigger] idx[i] < sorted.len() && files[i] == sorted[idx[i]]
    &&& forall|i: int, j: int| 0 <= i < j < idx.len() ==> #[trigger] idx[i] < #[trigger] idx[j]
    &&& forall|i: int, j: int| 0 <= i < j < files.len() ==> (#[trigger] files[i]).file_path != (#[trigger] files[j]).file_path
    &&& forall|m: int| 0 <= m < sorted.len() ==> #[trigger] covers(sorted, files, idx, m)
}

/// The path of `sorted[m]` is kept at or before its position.
pub open spec fn covers(sorted: Seq<EditView>, files: Seq<EditView>, idx: Seq<int>, m: int) -> bool {
    exists|i: int| 0 <= i < files.len() && idx[i] <= m && files[i].file_path == sorted[m].file_path
}

proof fn lemma_first_push(pre: Seq<EditView>, x: EditView, prev: Seq<EditView>, idx: Seq<int>)
    requires
        first_per_path(pre, prev, idx),
        forall|i: int| 0 <= i < prev.len() ==> (#[trigger] prev[i]).file_path != x.file_path,
    ensures
        first_per_path(pre.push(x), prev.push(x), idx.push(pre.len() as int)),
{
    let post = pre.push(x);
    let fo = prev.push(x);
    let ni = idx.push(pre.len() as int);
    assert forall|q: int| 0 <= q < post.len() implies #[trigger] covers(post, fo, ni, q) by {
        if q < pre.len() {
            assert(post[q] == pre[q]);
            assert(covers(pre, prev, idx, q));
            let w = choose|i: int| 0 <= i < prev.len() && idx[i] <= q && prev[i].file_path == pre[q].file_path;
            assert(fo[w] == prev[w]);
            assert(ni[w] == idx[w]);
            assert(0 <= w < fo.len() && ni[w] <= q && fo[w].file_path == post[q].file_path);
        } else {
            let l = prev.len() as int;
            assert(fo[l] == post[q]);
            assert(ni[l] == pre.len());
            assert(0 <= l < fo.len() && ni[l] <= q && fo[l].file_path == post[q].file_path);
        }
    }
    assert forall|a: int, b: int| 0 <= a < b < fo.len() implies (#[trigger] fo[a]).file_path != (#[trigger] fo[b]).file_path by {
        if b == prev.len() {
        } else {
            assert(prev[a].file_path != prev[b].file_path);
        }
    }
    assert forall|a: int| 0 <= a < ni.len() implies 0 <= #[trigger] ni[a] < post.len() && fo[a] == post[ni[a]] by {
        if a < prev.len() {
            assert(ni[a] == idx[a]);
            assert(post[idx[a]] == pre[idx[a]]);
        }
    }
    assert forall|a: int, b: int| 0 <= a < b < ni.len() implies #[trigger] ni[a] < #[trigger] ni[b] by {
        assert(ni[a] == idx[a]);
        assert(idx[a] < pre.len());
        if b < prev.len() {
            assert(ni[b] == idx[b]);
        }
    }
    assert(ni.len() == fo.len());
    assert(forall|i: int| 0 <= i < ni.len() ==> 0 <= #[trigger] ni[i] < post.len() && fo[i] == post[ni[i]]);
    assert(forall|i: int, j: int| 0 <= i < j < ni.len() ==> #[trigger] ni[i] < #[trigger] ni[j]);
    assert(forall|i: int, j: int| 0 <= i < j < fo.len() ==> (#[trigger] fo[i]).file_path != (#[trigger] fo[j]).file_path);
}

proof fn lemma_first_skip(pre: Seq<EditView>, x: EditView, files: Seq<EditView>, idx: Seq<int>, i: int)
    requires
        first_per_path(pre, files, idx),
        0 <= i < files.len(),
        files[i].file_path == x.file_path,
    ensures
        first_per_path(pre.push(x), files, idx),
{
    let post = pre.push(x);
    assert forall|q: int| 0 <= q < post.len() implies #[trigger] covers(post, files, idx, q) by {
        if q < pre.len() {
            assert(post[q] == pre[q]);
            assert(covers(pre, files, idx, q));
            let w = choose|j: int| 0 <= j < files.len() && idx[j] <= q && files[j].file_path == pre[q].file_path;
            assert(0 <= w < files.len() && idx[w] <= q && files[w].file_path == post[q].file_path);
        } else {
            assert(idx[i] < pre.len());
            assert(0 <= i < files.len() && idx[i] <= q && files[i].file_path == post[q].file_path);
        }
    }
    assert forall|a: int| 0 <= a < idx.len() implies 0 <= #[trigger] idx[a] < post.len() && files[a] == post[idx[a]] by {
        assert(post[idx[a]] == pre[idx[a]]);
    }
}

/// Keeps the first edit of each path, in order.
pub fn first_of_each_path(sorted: &Vec<RecentFileEdit>) -> (r: Vec<RecentFileEdit>)
    ensures
        exists|idx: Seq<int>| first_per_path(views(sorted@), views(r@), idx),
{
    let ghost all = views(sorted@);
    let mut out: Vec<RecentFileEdit> = Vec::new();
    let ghost mut idx: Seq<int> = Seq::empty();
    let mut m: usize = 0;
    while m < sorted.len()
        invariant
            all == views(sorted@),
            m <= sorted@.len(),
            first_per_path(all.subrange(0, m as int), views(out@), idx),
        decreases sorted@.len() - m,
    {
        let ghost pre = all.subrange(0, m as int);
        let ghost post = all.subrange(0, m + 1);
        let mut i: usize = 0;
        while i < out.len() && !str_eq(out[i].file_path.as_str(), sorted[m].file_path.as_str())
            invariant
                m < sorted@.len(),
                i <= out@.len(),
                forall|j: int| 0 <= j < i ==> (#[trigger] out@[j]).file_path@ != sorted@[m as int].file_path@,
            decreases out@.len() - i,
        {
            i = i + 1;
        }
        let found = i < out.len();
        proof {
            assert(post =~= pre.push(all[m as int]));
        }
        if !found {
            let ghost prev = views(out@);
            let x = sorted[m].clone_edit();
            out.push(x);
            proof {
                assert(views(out@) =~= prev.push(x@));
                lemma_first_push(pre, all[m as int], prev, idx);
                idx = idx.push(m as int);
            }
        } else {
            proof {
                lemma_first_skip(pre, all[m as int], views(out@), idx, i as int);
            }
        }
        m = m + 1;
    }
    assert(all.subrange(0, sorted@.len() as int) =~= all);
    out
}

proof fn lemma_in_both(a: Seq<RecentFileEdit>, b: Seq<RecentFileEdit>, k: int)
    requires
        a.to_multiset() == b.to_multiset(),
        0 <= k < a.len(),
    ensures
        exists|m: int| 0 <= m < b.len() && b[m] == a[k],
{
    to_multiset_contains(a, a[k]);
    to_multiset_contains(b, a[k]);
    assert(a.contains(a[k]));
}

/// Sorting newest first and keeping the first edit of each path leaves the
/// latest edit of each path, newest first.
proof fn lemma_latest(filtered: Seq<RecentFileEdit>, sorted: Seq<RecentFileEdit>, files: Seq<EditView>, idx: Seq<int>)
    requires
        sorted.to_multiset() == filtered.to_multiset(),
        newest_first(sorted),
        first_per_path(views(sorted), files, idx),
    ensures
        latest_per_file(views(filtered), files),
        views_newest_first(files),
{
    let all = views(filtered);
    let vs = views(sorted);
    assert forall|i: int| 0 <= i < files.len() implies all.contains(#[trigger] files[i]) by {
        lemma_in_both(sorted, filtered, idx[i]);
        let m = choose|m: int| 0 <= m < filtered.len() && filtered[m] == sorted[idx[i]];
        assert(all[m] == files[i]);
    }
    assert forall|k: int| 0 <= k < all.len() implies #[trigger] has_path(files, all[k].file_path) by {
        lemma_in_both(filtered, sorted, k);
        let m = choose|m: int| 0 <= m < sorted.len() && sorted[m] == filtered[k];
        assert(vs[m] == all[k]);
        assert(covers(vs, files, idx, m));
        let i = choose|i: int| 0 <= i < files.len() && idx[i] <= m && files[i].file_path == vs[m].file_path;
        assert(files[i].file_path == all[k].file_path);
    }
    assert forall|i: int, k: int| 0 <= i < files.len() && 0 <= k < all.len() && (#[trigger] files[i]).file_path == (#[trigger] all[k]).file_path
        implies !seq_less(files[i].timestamp, all[k].timestamp) by {
        lemma_in_both(filtered, sorted, k);
        let m = choose|m: int| 0 <= m < sorted.len() && sorted[m] == filtered[k];
        assert(vs[m] == all[k]);
        assert(covers(vs, files, idx, m));
        let w = choose|w: int| 0 <= w < files.len() && idx[w] <= m && files[w].file_path == vs[m].file_path;
        if w != i {
            if w < i {
                assert(files[w].file_path != files[i].file_path);
            } else {
                assert(files[i].file_path != files[w].file_path);
            }
        }
        lemma_less_total(vs[m].timestamp, vs[m].timestamp);
        if idx[i] < m {
            assert(!seq_less(sorted[idx[i]].timestamp@, sorted[m].timestamp@));
        }
    }
    assert forall|i: int, j: int| 0 <= i < j < files.len() implies !seq_less((#[trigger] files[i]).timestamp, (#[trigger] files[j]).timestamp) by {
        assert(!seq_less(sorted[idx[i]].timestamp@, sorted[idx[j]].timestamp@));
    }
    assert forall|i: int, j: int| 0 <= i < j < files.len() implies (#[trigger] files[i]).file_path != (#[trigger] files[j]).file_path by {
    }
    assert(forall|i: int| 0 <= i < files.len() ==> all.contains(#[trigger] files[i]));
    assert(forall|i: int, k: int| 0 <= i < files.len() && 0 <= k < all.len() && (#[trigger] files[i]).file_path == (#[trigger] all[k]).file_path
        ==> !seq_less(files[i].timestamp, all[k].timestamp));
}

/// When one edit of a file is later than every other edit of that file,
/// the result holds exactly one entry for the file, and it is that edit.
pub proof fn lemma_latest_edit_of_file(all: Seq<EditView>, files: Seq<EditView>, last: int)
    requires
        latest_per_file(all, files),
        0 <= last < all.len(),
        forall|k: int| 0 <= k < all.len() && k != last && (#[trigger] all[k]).file_path == all[last].file_path
            ==> seq_less(all[k].timestamp, all[last].timestamp),
    ensures
        exists|i: int| 0 <= i < files.len() && files[i] == all[last]
            && forall|j: int| 0 <= j < files.len() && (#[trigger] files[j]).file_path == all[last].file_path ==> j == i,
{
    assert(has_path(files, all[last].file_path));
    let i = choose|i: int| 0 <= i < files.len() && files[i].file_path == all[last].file_path;
    assert(all.contains(files[i]));
    let k = choose|k: int| 0 <= k < all.len() && all[k] == files[i];
    assert(!seq_less(files[i].timestamp, all[last].timestamp));
    if k != last {
        assert(seq_less(all[k].timestamp, all[last].timestamp));
    }
    assert forall|j: int| 0 <= j < files.len() && (#[trigger] files[j]).file_path == all[last].file_path implies j == i by {
        if j < i {
            assert(files[j].file_path != files[i].file_path);
        } else if j > i {
            assert(files[i].file_path != files[j].file_path);
        }
    }
}

/// The paths of some edits, in order.
pub open spec fn paths(s: Seq<EditView>) -> Seq<Seq<char>> {
    s.map_values(|e: EditView| e.file_path)
}

/// The latest edits hold exactly one entry for each distinct path among
/// all the edits.
pub proof fn lemma_one_entry_per_path(all: Seq<EditView>, files: Seq<EditView>)
    requires
        latest_per_file(all, files),
    ensures
        files.len() == paths(all).to_set().len(),
{
    let pf = paths(files);
    let pa = paths(all);
    assert(pf.no_duplicates()) by {
        assert forall|i: int, j: int| 0 <= i < pf.len() && 0 <= j < pf.len() && i != j implies pf[i] != pf[j] by {
            if i < j {
                assert(files[i].file_path != files[j].file_path);
            } else {
                assert(files[j].file_path != files[i].file_path);
            }
        }
    }
    pf.unique_seq_to_set();
    assert forall|x: Seq<char>| pf.to_set().contains(x) <==> pa.to_set().contains(x) by {
        if pf.contains(x) {
            let i = choose|i: int| 0 <= i < pf.len() && pf[i] == x;
            assert(all.contains(files[i]));
            let k = choose|k: int| 0 <= k < all.len() && all[k] == files[i];
            assert(pa[k] == x);
        }
        if pa.contains(x) {
            let k = choose|k: int| 0 <= k < pa.len() && pa[k] == x;
            assert(has_path(files, all[k].file_path));
            let i = choose|i: int| 0 <= i < files.len() && files[i].file_path == all[k].file_path;
            assert(pf[i] == x);
        }
    }
    assert(pf.to_set() =~= pa.to_set());
}

/// A page of the latest edit of each file of a project.
#[derive(Debug)]
pub struct PaginatedRecentEdits {
    pub files: Vec<RecentFileEdit>,
    pub total_edits_count: usize,
    pub unique_files_count: usize,
    pub project_cwd: Option<String>,
    pub offset: usize,
    pub limit: usize,
    pub has_more: bool,
}

/// The page size used when none is asked for.
pub const DEFAULT_PAGE_SIZE: usize = 20;

/// `limit` items of `s` from `offset` on, as far as `s` goes.
pub open spec fn page(s: Seq<EditView>, offset: int, limit: int) -> Seq<EditView> {
    let lo = if offset < s.len() { offset } else { s.len() as int };
    let hi = if offset + limit < s.len() { offset + limit } else { s.len() as int };
    s.subrange(lo, hi)
}

fn take_page(files: &Vec<RecentFileEdit>, offset: usize, limit: usize) -> (r: Vec<RecentFileEdit>)
    ensures
        views(r@) == page(views(files@), offset as int, limit as int),
{
    let mut out: Vec<RecentFileEdit> = Vec::new();
    if offset >= files.len() {
        assert(views(out@) =~= page(views(files@), offset as int, limit as int));
        return out;
    }
    let mut i: usize = offset;
    while i < files.len() && i - offset < limit
        invariant
            offset <= i <= files@.len(),
            i - offset <= limit,
            views(out@) == views(files@).subrange(offset as int, i as int),
        decreases files@.len() - i,
    {
        let ghost prev = views(out@);
        let x = files[i].clone_edit();
        out.push(x);
        assert(views(out@) =~= prev.push(x@));
        assert(views(out@) =~= views(files@).subrange(offset as int, i + 1));
        i = i + 1;
    }
    assert(views(out@) =~= page(views(files@), offset as int, limit as int));
    out
}

/// The latest edit of each file that lies in the project, newest first,
/// paginated. The project's directory is the working directory recorded
/// most often; when none was recorded every edit counts. Paths are
/// compared with it lowercased where `fold_case` is set (for file systems
/// that ignore case). `offset` defaults to 0 and `limit` to 20.
pub fn recent_edits_page(scan: &EditScan, offset: Option<usize>, limit: Option<usize>, fold_case: bool) -> (r: PaginatedRecentEdits)
    requires
        scan.wf(),
    ensures
        r.offset == match offset { Some(o) => o, None => 0 },
        r.limit == match limit { Some(l) => l, None => DEFAULT_PAGE_SIZE },
        r.project_cwd is None <==> scan.cwd_counts@.len() == 0,
        r.project_cwd matches Some(c) ==> exists|i: int| 0 <= i < scan.cwd_counts@.len() && (#[trigger] scan.cwd_counts@[i]).0@ == c@
            && forall|j: int| 0 <= j < scan.cwd_counts@.len() ==> (#[trigger] scan.cwd_counts@[j]).1 <= scan.cwd_counts@[i].1,
        r.total_edits_count == project_edits(views(scan.edits@), opt_view(r.project_cwd), fold_case).len(),
        exists|files: Seq<EditView>|
            latest_per_file(project_edits(views(scan.edits@), opt_view(r.project_cwd), fold_case), files)
            && views_newest_first(files)
            && r.unique_files_count == files.len()
            && views(r.files@) == page(files, r.offset as int, r.limit as int),
        r.unique_files_count == paths(project_edits(views(scan.edits@), opt_view(r.project_cwd), fold_case)).to_set().len(),
        r.files@.len() <= r.limit,
        r.has_more == (r.offset + r.files@.len() < r.unique_files_count),
{
    let offset = match offset { Some(o) => o, None => 0 };
    let limit = match limit { Some(l) => l, None => DEFAULT_PAGE_SIZE };
    let project_cwd = most_common(&scan.cwd_counts);
    let filtered = filter_to_project(&scan.edits, &project_cwd, fold_case);
    let total_edits_count = filtered.len();
    let ghost fv = filtered@;
    let sorted = sort_newest_first(filtered);
    let files = first_of_each_path(&sorted);
    let ghost idx = choose|idx: Seq<int>| first_per_path(views(sorted@), views(files@), idx);
    proof {
        lemma_latest(fv, sorted@, views(files@), idx);
        lemma_one_entry_per_path(views(fv), views(files@));
    }
    let unique_files_count = files.len();
    let page_files = take_page(&files, offset, limit);
    assert(views(page_files@).len() == page_files@.len());
    assert(views(files@).len() == files@.len());
    let has_more = offset < unique_files_count && offset + page_files.len() < unique_files_count;
    PaginatedRecentEdits {
        files: page_files,
        total_edits_count,
        unique_files_count,
        project_cwd,
        offset,
        limit,
        has_more,
    }
}

} // verus!
