//! Pagination of a listing by offset and limit.

use vstd::prelude::*;

verus! {

/// Where the page that skips `offset` items of a listing of `len` items starts.
pub open spec fn page_start(len: nat, offset: nat) -> nat {
    if offset < len {
        offset
    } else {
        len
    }
}

/// Where the page of at most `limit` items that skips `offset` items ends.
pub open spec fn page_end(len: nat, offset: nat, limit: nat) -> nat {
    if offset + limit < len {
        offset + limit
    } else {
        len
    }
}

/// The page of `s` that skips the first `offset` items and holds at most `limit`
/// items: empty when `offset` reaches the end, shorter than `limit` at the tail.
pub open spec fn page<T>(s: Seq<T>, offset: nat, limit: nat) -> Seq<T> {
    s.subrange(page_start(s.len(), offset) as int, page_end(s.len(), offset, limit) as int)
}

/// The bounds of a page in a listing of `len` items.
pub fn page_bounds(len: usize, offset: u64, limit: u64) -> (r: (usize, usize))
    ensures
        r.0 == page_start(len as nat, offset as nat),
        r.1 == page_end(len as nat, offset as nat, limit as nat),
        r.0 <= r.1 <= len,
{
    let total: u64 = len as u64;
    if offset >= total {
        (len, len)
    } else if limit >= total - offset {
        (offset as usize, len)
    } else {
        (offset as usize, (offset + limit) as usize)
    }
}

/// A page never holds more than `limit` items, and is empty once `offset`
/// reaches the end of the listing.
pub proof fn law_page_len<T>(s: Seq<T>, offset: nat, limit: nat)
    ensures
        page(s, offset, limit).len() <= limit,
        page(s, offset, limit).len() <= s.len(),
        offset >= s.len() ==> page(s, offset, limit).len() == 0,
        offset + limit <= s.len() ==> page(s, offset, limit).len() == limit,
        offset <= s.len() && offset + limit >= s.len() ==> page(s, offset, limit).len() == s.len()
            - offset,
{
}

/// A page keeps the listing's items in place: its `i`-th item is the listing's
/// item at `offset + i`.
pub proof fn law_page_index<T>(s: Seq<T>, offset: nat, limit: nat, i: int)
    requires
        0 <= i < page(s, offset, limit).len(),
    ensures
        offset + i < s.len(),
        page(s, offset, limit)[i] == s[offset + i],
{
}

/// A page from the start with a limit that covers the listing is the listing.
pub proof fn lemma_page_all<T>(s: Seq<T>, limit: nat)
    requires
        limit >= s.len(),
    ensures
        page(s, 0, limit) == s,
{
    assert(page(s, 0, limit) =~= s);
}

/// Two consecutive pages, the first of `k` items from `offset` and the second
/// of `m` items from `offset + k`, joined, are the one page of `k + m` items
/// from `offset`.
pub proof fn lemma_page_concat<T>(s: Seq<T>, offset: nat, k: nat, m: nat)
    ensures
        page(s, offset, k) + page(s, offset + k, m) == page(s, offset, k + m),
{
    assert(page(s, offset, k) + page(s, offset + k, m) =~= page(s, offset, k + m));
}

/// Paging a mapped listing is mapping the page.
pub proof fn lemma_page_map<A, B>(s: Seq<A>, f: spec_fn(A) -> B, offset: nat, limit: nat)
    ensures
        page(s.map_values(f), offset, limit) == page(s, offset, limit).map_values(f),
{
    assert(page(s.map_values(f), offset, limit) =~= page(s, offset, limit).map_values(f));
}

} // verus!
