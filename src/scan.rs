//! Splitting a byte buffer into non-empty lines.

use vstd::prelude::*;
use vstd::slice::slice_subrange;

verus! {

/// The newline byte that separates records.
pub const NEWLINE: u8 = 10;

/// Relies on `memchr::memchr`: the index of the first occurrence of
/// `needle` in `haystack`, or `None` when the byte does not occur.
#[verifier::external_body]
fn find_byte(needle: u8, haystack: &[u8]) -> (r: Option<usize>)
    ensures
        match r {
            Some(i) => i < haystack@.len() && haystack@[i as int] == needle
                && forall|j: int| 0 <= j < i ==> haystack@[j] != needle,
            None => forall|j: int| 0 <= j < haystack@.len() ==> haystack@[j] != needle,
        },
{
    memchr::memchr(needle, haystack)
}

/// `(s, e)` is a maximal run of non-newline bytes of `data`.
pub open spec fn is_line_range(data: Seq<u8>, s: int, e: int) -> bool {
    &&& 0 <= s < e <= data.len()
    &&& (s == 0 || data[s - 1] == NEWLINE)
    &&& (e == data.len() || data[e] == NEWLINE)
    &&& forall|p: int| s <= p < e ==> data[p] != NEWLINE
}

/// Position `p` lies inside one of the ranges.
pub open spec fn covered(ranges: Seq<(usize, usize)>, p: int) -> bool {
    exists|k: int| 0 <= k < ranges.len() && #[trigger] ranges[k].0 <= p < ranges[k].1
}

/// The ranges are exactly the non-empty lines of `data`, in order.
pub open spec fn are_line_ranges(data: Seq<u8>, ranges: Seq<(usize, usize)>) -> bool {
    &&& forall|k: int| 0 <= k < ranges.len() ==> is_line_range(data, #[trigger] ranges[k].0 as int, ranges[k].1 as int)
    &&& forall|k: int| 0 <= k < ranges.len() - 1 ==> #[trigger] ranges[k].1 < ranges[k + 1].0
    &&& forall|p: int| 0 <= p < data.len() ==> (#[trigger] covered(ranges, p) <==> data[p] != NEWLINE)
}

/// Returns the `(start, end)` byte offsets of every non-empty line of
/// `data`, in order; a final line without a newline is included.
pub fn find_line_ranges(data: &[u8]) -> (ranges: Vec<(usize, usize)>)
    ensures
        are_line_ranges(data@, ranges@),
{
    let len = data.len();
    let mut ranges: Vec<(usize, usize)> = Vec::new();
    let mut start: usize = 0;
    while start < len
        invariant
            len == data@.len(),
            start <= len,
            start == 0 || start == len || data@[start - 1] == NEWLINE,
            forall|k: int| 0 <= k < ranges@.len() ==> is_line_range(data@, #[trigger] ranges@[k].0 as int, ranges@[k].1 as int),
            forall|k: int| 0 <= k < ranges@.len() - 1 ==> #[trigger] ranges@[k].1 < ranges@[k + 1].0,
            forall|k: int| 0 <= k < ranges@.len() ==> #[trigger] ranges@[k].1 < start || (ranges@[k].1 == start && start == len),
            forall|p: int| 0 <= p < start ==> (#[trigger] covered(ranges@, p) <==> data@[p] != NEWLINE),
            forall|p: int| start <= p < len ==> !#[trigger] covered(ranges@, p),
        decreases len - start,
    {
        let rest = slice_subrange(data, start, len);
        match find_byte(NEWLINE, rest) {
            Some(off) => {
                let pos = start + off;
                let ghost old_ranges = ranges@;
                if pos > start {
                    ranges.push((start, pos));
                    assert forall|p: int| 0 <= p < pos + 1 implies (#[trigger] covered(ranges@, p) <==> data@[p] != NEWLINE) by {
                        if p < start {
                            if covered(old_ranges, p) {
                                let k = choose|k: int| 0 <= k < old_ranges.len() && #[trigger] old_ranges[k].0 <= p < old_ranges[k].1;
                                assert(ranges@[k] == old_ranges[k]);
                            }
                            if covered(ranges@, p) {
                                let k = choose|k: int| 0 <= k < ranges@.len() && #[trigger] ranges@[k].0 <= p < ranges@[k].1;
                                assert(k < old_ranges.len());
                                assert(covered(old_ranges, p));
                            }
                        } else if p < pos {
                            assert(rest@[p - start] == data@[p]);
                            assert(ranges@[ranges@.len() - 1].0 <= p < ranges@[ranges@.len() - 1].1);
                        } else {
                            assert(rest@[off as int] == data@[p]);
                            if covered(ranges@, p) {
                                let k = choose|k: int| 0 <= k < ranges@.len() && #[trigger] ranges@[k].0 <= p < ranges@[k].1;
                                assert(k < old_ranges.len());
                            }
                        }
                    }
                    assert forall|p: int| pos + 1 <= p < len implies !#[trigger] covered(ranges@, p) by {
                        if covered(ranges@, p) {
                            let k = choose|k: int| 0 <= k < ranges@.len() && #[trigger] ranges@[k].0 <= p < ranges@[k].1;
                            if k < old_ranges.len() {
                                assert(covered(old_ranges, p));
                            }
                        }
                    }
                    assert forall|q: int| start <= q < pos implies data@[q] != NEWLINE by {
                        assert(rest@[q - start] == data@[q]);
                    }
                    assert(rest@[off as int] == data@[pos as int]);
                } else {
                    assert(rest@[0] == data@[start as int]);
                }
                start = pos + 1;
            },
            None => {
                let ghost old_ranges = ranges@;
                ranges.push((start, len));
                assert forall|q: int| start <= q < len implies data@[q] != NEWLINE by {
                    assert(rest@[q - start] == data@[q]);
                }
                assert forall|p: int| 0 <= p < len implies (#[trigger] covered(ranges@, p) <==> data@[p] != NEWLINE) by {
                    if p < start {
                        if covered(old_ranges, p) {
                            let k = choose|k: int| 0 <= k < old_ranges.len() && #[trigger] old_ranges[k].0 <= p < old_ranges[k].1;
                            assert(ranges@[k] == old_ranges[k]);
                        }
                        if covered(ranges@, p) {
                            let k = choose|k: int| 0 <= k < ranges@.len() && #[trigger] ranges@[k].0 <= p < ranges@[k].1;
                            assert(k < old_ranges.len());
                            assert(covered(old_ranges, p));
                        }
                    } else {
                        assert(ranges@[ranges@.len() - 1].0 <= p < ranges@[ranges@.len() - 1].1);
                    }
                }
                start = len;
            },
        }
    }
    ranges
}


/// `p` is the first byte of a line that follows a newline.
pub open spec fn follows_newline(data: Seq<u8>, p: int) -> bool {
    0 < p < data.len() && data[p - 1] == NEWLINE
}

/// Returns the offset of every line start: `0`, then each position just
/// after a newline that is not the end of the buffer, in increasing order.
pub fn find_line_starts(data: &[u8]) -> (starts: Vec<usize>)
    ensures
        starts@.len() >= 1,
        starts@[0] == 0,
        forall|i: int| 1 <= i < starts@.len() ==> follows_newline(data@, #[trigger] starts@[i] as int),
        forall|i: int| 0 <= i < starts@.len() - 1 ==> #[trigger] starts@[i] < starts@[i + 1],
        forall|p: int| #[trigger] follows_newline(data@, p) ==> starts@.contains(p as usize),
{
    let len = data.len();
    let mut starts: Vec<usize> = Vec::new();
    starts.push(0);
    let mut start: usize = 0;
    while start < len
        invariant
            len == data@.len(),
            start <= len,
            starts@.len() >= 1,
            starts@[0] == 0,
            forall|i: int| 1 <= i < starts@.len() ==> follows_newline(data@, #[trigger] starts@[i] as int),
            forall|i: int| 0 <= i < starts@.len() - 1 ==> #[trigger] starts@[i] < starts@[i + 1],
            starts@[starts@.len() - 1] <= start,
            forall|p: int| #[trigger] follows_newline(data@, p) && p <= start ==> starts@.contains(p as usize),
        decreases len - start,
    {
        let rest = slice_subrange(data, start, len);
        let ghost old_starts = starts@;
        match find_byte(NEWLINE, rest) {
            Some(off) => {
                let pos = start + off;
                assert(rest@[off as int] == data@[pos as int]);
                if pos + 1 < len {
                    starts.push(pos + 1);
                    assert(starts@[starts@.len() - 1] == pos + 1);
                }
                assert forall|p: int| #[trigger] follows_newline(data@, p) && p <= pos + 1 implies starts@.contains(p as usize) by {
                    if p <= start {
                        let i = choose|i: int| 0 <= i < old_starts.len() && old_starts[i] == p as usize;
                        assert(starts@[i] == p as usize);
                    } else if p <= pos {
                        assert(rest@[p - 1 - start] == data@[p - 1]);
                    } else {
                        assert(starts@[starts@.len() - 1] == p as usize);
                    }
                }
                start = pos + 1;
            },
            None => {
                assert forall|p: int| #[trigger] follows_newline(data@, p) && p <= len implies starts@.contains(p as usize) by {
                    if p <= start {
                    } else {
                        assert(rest@[p - 1 - start] == data@[p - 1]);
                    }
                }
                start = len;
            },
        }
    }
    starts
}

/// The estimated number of messages in a file of `size` bytes: one per
/// started thousand bytes, and never less than one.
pub open spec fn estimated_count(size: nat) -> nat {
    if size == 0 {
        1
    } else {
        ((size + 999) / 1000) as nat
    }
}

/// Estimates the number of messages in a file from its size in bytes
/// (saturating at `usize::MAX` where `usize` is narrower than 64 bits).
pub fn estimate_message_count_from_size(file_size: u64) -> (r: usize)
    ensures
        estimated_count(file_size as nat) <= usize::MAX ==> r == estimated_count(file_size as nat),
        estimated_count(file_size as nat) > usize::MAX ==> r == usize::MAX,
{
    let q: u64 = file_size / 1000 + if file_size % 1000 == 0 { 0 } else { 1 };
    assert(file_size > 0 ==> q == (file_size + 999) / 1000);
    if q == 0 {
        1
    } else if q > usize::MAX as u64 {
        usize::MAX
    } else {
        q as usize
    }
}

/// The estimate never decreases as the file grows, and an empty file
/// counts as one message.
pub proof fn lemma_estimate_monotonic(s1: nat, s2: nat)
    requires
        s1 <= s2,
    ensures
        estimated_count(s1) <= estimated_count(s2),
        estimated_count(0) == 1,
{
    if s1 > 0 {
        vstd::arithmetic::div_mod::lemma_div_is_ordered((s1 + 999) as int, (s2 + 999) as int, 1000);
    } else if s2 > 0 {
        assert((s2 + 999) / 1000 >= 1) by(nonlinear_arith)
            requires s2 > 0;
    }
}

} // verus!
