//! Pages of a session's messages.

use vstd::prelude::*;
use crate::models::{ClaudeMessage, MessagePage};

verus! {

/// The start and end of the page `offset`, `limit` in a list of `len` items.
pub open spec fn page_bounds(len: int, offset: int, limit: int) -> (int, int) {
    let lo = if offset < len { offset } else { len };
    let hi = if offset + limit < len { offset + limit } else { len };
    (lo, hi)
}

/// The page of `limit` messages from `offset` on. The total counts every
/// message; there is more exactly when the page ends before the total.
pub fn message_page(messages: Vec<ClaudeMessage>, offset: usize, limit: usize) -> (r: MessagePage)
    ensures
        r.total_count == messages@.len(),
        r.messages@ == messages@.subrange(
            page_bounds(messages@.len() as int, offset as int, limit as int).0,
            page_bounds(messages@.len() as int, offset as int, limit as int).1,
        ),
        r.messages@.len() <= limit,
        r.has_more == (offset + r.messages@.len() < r.total_count),
        r.next_offset == if offset + r.messages@.len() > usize::MAX { usize::MAX as int } else { offset + r.messages@.len() },
{
    let total = messages.len();
    let mut rest = messages;
    let lo = if offset < total { offset } else { total };
    let hi = if limit < total - lo { lo + limit } else { total };
    let mut page = rest.split_off(lo);
    page.truncate(hi - lo);
    let returned = page.len();
    let has_more = offset < total && offset + returned < total;
    let next_offset = if offset > usize::MAX - returned { usize::MAX } else { offset + returned };
    MessagePage { messages: page, total_count: total, has_more, next_offset }
}

} // verus!
