//! A secondary index: identifiers kept in increasing order of a key, ties by
//! identifier, with point and inclusive range lookup.

use vstd::prelude::*;
use crate::paging::{page, page_bounds};
use crate::seqs::lemma_filter_stretch;

verus! {

/// One index entry: the identifier `id` is filed under `key`.
#[derive(Clone, Copy, Debug, PartialEq, Eq, Structural)]
pub struct IndexEntry {
    pub key: u64,
    pub id: u64,
}

/// The order of an index: by key, ties by identifier.
pub open spec fn entry_lt(a: IndexEntry, b: IndexEntry) -> bool {
    a.key < b.key || (a.key == b.key && a.id < b.id)
}

/// Every entry precedes every later one.
pub open spec fn strictly_sorted(s: Seq<IndexEntry>) -> bool {
    forall|i: int, j: int| 0 <= i < j < s.len() ==> entry_lt(#[trigger] s[i], #[trigger] s[j])
}

/// `s` lists exactly the entries of `entries`, each once, in increasing order.
pub open spec fn is_ordering_of(s: Seq<IndexEntry>, entries: Set<IndexEntry>) -> bool {
    strictly_sorted(s) && s.to_set() =~= entries
}

/// The listing of a set of entries in increasing order.
pub open spec fn ordering_of(entries: Set<IndexEntry>) -> Seq<IndexEntry> {
    choose|s: Seq<IndexEntry>| is_ordering_of(s, entries)
}

/// The key lies between `min` and `max`, both bounds counted in.
pub open spec fn key_within(min: u64, max: u64) -> spec_fn(IndexEntry) -> bool {
    |e: IndexEntry| min <= e.key <= max
}

/// The identifier of an entry.
pub open spec fn entry_id() -> spec_fn(IndexEntry) -> u64 {
    |e: IndexEntry| e.id
}

/// Two increasing listings of the same entries are the same listing.
pub proof fn lemma_ordering_unique(a: Seq<IndexEntry>, b: Seq<IndexEntry>)
    requires
        strictly_sorted(a),
        strictly_sorted(b),
        a.to_set() =~= b.to_set(),
    ensures
        a == b,
    decreases a.len(),
{
    if a.len() == 0 {
        if b.len() > 0 {
            assert(b.contains(b[0]));
            assert(b.to_set().contains(b[0]));
            assert(a.contains(b[0]));
        }
        assert(a =~= b);
    } else {
        let x = a.last();
        assert(a.contains(x));
        assert(a.to_set().contains(x));
        assert(b.contains(x));
        let y = b.last();
        assert(b.contains(y));
        assert(b.to_set().contains(y));
        assert(a.contains(y));
        let i = choose|i: int| 0 <= i < a.len() && a[i] == y;
        let j = choose|j: int| 0 <= j < b.len() && b[j] == x;
        assert(x == y) by {
            if i < a.len() - 1 {
                assert(entry_lt(a[i], a[a.len() - 1]));
            }
            if j < b.len() - 1 {
                assert(entry_lt(b[j], b[b.len() - 1]));
            }
        }
        let a0 = a.drop_last();
        let b0 = b.drop_last();
        assert forall|e: IndexEntry| a0.to_set().contains(e) <==> b0.to_set().contains(e) by {
            if a0.contains(e) {
                let k = choose|k: int| 0 <= k < a0.len() && a0[k] == e;
                assert(a[k] == e);
                assert(entry_lt(a[k], a[a.len() - 1]));
                assert(a.contains(e));
                assert(a.to_set().contains(e));
                assert(b.contains(e));
                let m = choose|m: int| 0 <= m < b.len() && b[m] == e;
                assert(b0[m] == e);
            }
            if b0.contains(e) {
                let k = choose|k: int| 0 <= k < b0.len() && b0[k] == e;
                assert(b[k] == e);
                assert(entry_lt(b[k], b[b.len() - 1]));
                assert(b.contains(e));
                assert(b.to_set().contains(e));
                assert(a.contains(e));
                let m = choose|m: int| 0 <= m < a.len() && a[m] == e;
                assert(a0[m] == e);
            }
        }
        assert(strictly_sorted(a0)) by {
            assert forall|p: int, q: int| 0 <= p < q < a0.len() implies entry_lt(
                #[trigger] a0[p],
                #[trigger] a0[q],
            ) by {
                assert(entry_lt(a[p], a[q]));
            }
        }
        assert(strictly_sorted(b0)) by {
            assert forall|p: int, q: int| 0 <= p < q < b0.len() implies entry_lt(
                #[trigger] b0[p],
                #[trigger] b0[q],
            ) by {
                assert(entry_lt(b[p], b[q]));
            }
        }
        lemma_ordering_unique(a0, b0);
        assert(a =~= a0.push(x));
        assert(b =~= b0.push(y));
    }
}

/// An increasing listing of a set of entries is the listing `ordering_of` names.
pub proof fn lemma_ordering_of(s: Seq<IndexEntry>, entries: Set<IndexEntry>)
    requires
        is_ordering_of(s, entries),
    ensures
        ordering_of(entries) == s,
{
    let t = ordering_of(entries);
    assert(is_ordering_of(t, entries));
    lemma_ordering_unique(s, t);
}

/// Putting an absent entry between the entries that precede it and the rest
/// keeps the order, and adds that entry and no other.
pub proof fn lemma_insert_sorted(t: Seq<IndexEntry>, x: IndexEntry, p: int)
    requires
        strictly_sorted(t),
        !t.contains(x),
        0 <= p <= t.len(),
        forall|i: int| 0 <= i < p ==> entry_lt(#[trigger] t[i], x),
        forall|i: int| p <= i < t.len() ==> !entry_lt(#[trigger] t[i], x),
    ensures
        strictly_sorted(t.insert(p, x)),
        t.insert(p, x).to_set() =~= t.to_set().insert(x),
{
    let after = t.insert(p, x);
    assert forall|i: int, j: int| 0 <= i < j < after.len() implies entry_lt(
        #[trigger] after[i],
        #[trigger] after[j],
    ) by {
        if j < p {
            assert(entry_lt(t[i], t[j]));
        } else if j == p {
            assert(after[i] == t[i]);
        } else if i < p {
            assert(after[j] == t[j - 1]);
            if i < j - 1 {
                assert(entry_lt(t[i], t[j - 1]));
            }
            assert(entry_lt(t[i], x));
            assert(!entry_lt(t[j - 1], x));
        } else if i == p {
            assert(after[j] == t[j - 1]);
            assert(!entry_lt(t[j - 1], x));
            assert(t.contains(t[j - 1]));
        } else {
            assert(entry_lt(t[i - 1], t[j - 1]));
        }
    }
    assert forall|e: IndexEntry| after.to_set().contains(e) <==> t.to_set().insert(x).contains(
        e,
    ) by {
        if after.contains(e) {
            let k = choose|k: int| 0 <= k < after.len() && after[k] == e;
            if k < p {
                assert(t[k] == e);
            } else if k > p {
                assert(t[k - 1] == e);
            }
        }
        if t.contains(e) {
            let k = choose|k: int| 0 <= k < t.len() && t[k] == e;
            if k < p {
                assert(after[k] == e);
            } else {
                assert(after[k + 1] == e);
            }
        }
        if e == x {
            assert(after[p] == e);
        }
    }
}

/// The number of leading entries of an increasing listing that precede `x`.
pub open spec fn rank(t: Seq<IndexEntry>, x: IndexEntry) -> int
    decreases t.len(),
{
    if t.len() == 0 {
        0
    } else if entry_lt(t.last(), x) {
        t.len() as int
    } else {
        rank(t.drop_last(), x)
    }
}

/// In an increasing listing the entries that precede `x` are the first
/// `rank(t, x)` ones.
pub proof fn lemma_rank(t: Seq<IndexEntry>, x: IndexEntry)
    requires
        strictly_sorted(t),
    ensures
        0 <= rank(t, x) <= t.len(),
        forall|i: int| 0 <= i < rank(t, x) ==> entry_lt(#[trigger] t[i], x),
        forall|i: int| rank(t, x) <= i < t.len() ==> !entry_lt(#[trigger] t[i], x),
    decreases t.len(),
{
    if t.len() > 0 {
        if entry_lt(t.last(), x) {
            assert forall|i: int| 0 <= i < t.len() implies entry_lt(#[trigger] t[i], x) by {
                if i < t.len() - 1 {
                    assert(entry_lt(t[i], t[t.len() - 1]));
                }
            }
        } else {
            let t0 = t.drop_last();
            assert forall|i: int, j: int| 0 <= i < j < t0.len() implies entry_lt(
                #[trigger] t0[i],
                #[trigger] t0[j],
            ) by {
                assert(entry_lt(t[i], t[j]));
            }
            lemma_rank(t0, x);
            assert forall|i: int| 0 <= i < rank(t, x) implies entry_lt(#[trigger] t[i], x) by {
                assert(t[i] == t0[i]);
            }
            assert forall|i: int| rank(t, x) <= i < t.len() implies !entry_lt(
                #[trigger] t[i],
                x,
            ) by {
                if i < t.len() - 1 {
                    assert(t[i] == t0[i]);
                }
            }
        }
    }
}

/// Every listing of entries has an increasing listing of the same entries.
pub proof fn lemma_ordering_exists(s: Seq<IndexEntry>)
    ensures
        is_ordering_of(ordering_of(s.to_set()), s.to_set()),
    decreases s.len(),
{
    if s.len() == 0 {
        let t = Seq::<IndexEntry>::empty();
        assert(t.to_set() =~= s.to_set());
        assert(is_ordering_of(t, s.to_set()));
    } else {
        let s0 = s.drop_last();
        let x = s.last();
        lemma_ordering_exists(s0);
        let t0 = ordering_of(s0.to_set());
        assert forall|e: IndexEntry| s.to_set().contains(e) <==> s0.to_set().insert(x).contains(
            e,
        ) by {
            if s.contains(e) {
                let k = choose|k: int| 0 <= k < s.len() && s[k] == e;
                if k < s0.len() {
                    assert(s0[k] == e);
                }
            }
            if s0.contains(e) {
                let k = choose|k: int| 0 <= k < s0.len() && s0[k] == e;
                assert(s[k] == e);
            }
            if e == x {
                assert(s[s.len() - 1] == e);
            }
        }
        if t0.contains(x) {
            assert(t0.to_set().contains(x));
            assert(t0.to_set() =~= s.to_set());
            assert(is_ordering_of(t0, s.to_set()));
        } else {
            lemma_rank(t0, x);
            lemma_insert_sorted(t0, x, rank(t0, x));
            assert(is_ordering_of(t0.insert(rank(t0, x), x), s.to_set()));
        }
    }
}

/// An index over `(key, id)` entries, kept in increasing order.
pub struct OrderedIndex {
    entries: Vec<IndexEntry>,
}

impl View for OrderedIndex {
    type V = Seq<IndexEntry>;

    closed spec fn view(&self) -> Seq<IndexEntry> {
        self.entries@
    }
}

impl OrderedIndex {
    /// The entries are in strictly increasing order, so none occurs twice.
    pub open spec fn wf(&self) -> bool {
        strictly_sorted(self@)
    }

    /// An index without entries.
    pub fn new() -> (index: Self)
        ensures
            index.wf(),
            index@ == Seq::<IndexEntry>::empty(),
    {
        OrderedIndex { entries: Vec::new() }
    }

    /// The number of entries.
    pub fn len(&self) -> (n: usize)
        ensures
            n == self@.len(),
    {
        self.entries.len()
    }

    /// The position of the first entry that does not precede `(key, id)`:
    /// every entry before it precedes `(key, id)`, and no entry from it on does.
    pub fn lower_bound(&self, key: u64, id: u64) -> (p: usize)
        requires
            self.wf(),
        ensures
            p <= self@.len(),
            forall|i: int| 0 <= i < p ==> entry_lt(#[trigger] self@[i], IndexEntry { key, id }),
            forall|i: int|
                p <= i < self@.len() ==> !entry_lt(#[trigger] self@[i], IndexEntry { key, id }),
    {
        let ghost target = IndexEntry { key, id };
        let mut lo: usize = 0;
        let mut hi: usize = self.entries.len();
        while lo < hi
            invariant
                self.wf(),
                lo <= hi <= self@.len(),
                target == (IndexEntry { key, id }),
                forall|i: int| 0 <= i < lo ==> entry_lt(#[trigger] self@[i], target),
                forall|i: int| hi <= i < self@.len() ==> !entry_lt(#[trigger] self@[i], target),
            decreases hi - lo,
        {
            let mid: usize = lo + (hi - lo) / 2;
            let e: IndexEntry = self.entries[mid];
            if e.key < key || (e.key == key && e.id < id) {
                assert forall|i: int| 0 <= i < mid + 1 implies entry_lt(
                    #[trigger] self@[i],
                    target,
                ) by {
                    if i < mid {
                        assert(entry_lt(self@[i], self@[mid as int]));
                    }
                }
                lo = mid + 1;
            } else {
                assert forall|i: int| mid <= i < self@.len() implies !entry_lt(
                    #[trigger] self@[i],
                    target,
                ) by {
                    if mid < i {
                        assert(entry_lt(self@[mid as int], self@[i]));
                    }
                }
                hi = mid;
            }
        }
        lo
    }

    /// Files `id` under `key`, unless that entry is already present. The other
    /// entries stay, and the order is kept.
    pub fn insert(&mut self, key: u64, id: u64) -> (inserted: bool)
        requires
            old(self).wf(),
        ensures
            final(self).wf(),
            inserted == !old(self)@.contains(IndexEntry { key, id }),
            final(self)@.to_set() =~= old(self)@.to_set().insert(IndexEntry { key, id }),
            inserted ==> final(self)@.len() == old(self)@.len() + 1,
            !inserted ==> final(self)@ == old(self)@,
    {
        let p: usize = self.lower_bound(key, id);
        let target = IndexEntry { key, id };
        if p < self.entries.len() {
            let e: IndexEntry = self.entries[p];
            if e.key == key && e.id == id {
                assert(self@[p as int] == target);
                assert(self@.contains(target));
                assert(self@.to_set().insert(target) =~= self@.to_set());
                return false;
            }
        }
        proof {
            if self@.contains(target) {
                let i = choose|i: int| 0 <= i < self@.len() && self@[i] == target;
                if i > p {
                    assert(entry_lt(self@[p as int], self@[i]));
                }
            }
        }
        proof {
            lemma_insert_sorted(self@, target, p as int);
        }
        self.entries.insert(p, target);
        true
    }

    /// The identifier filed under `key`, where `key` has exactly one entry.
    /// Where `key` has no entry the result is `None`; where it has several, the
    /// result is the smallest identifier among them.
    pub fn first_with_key(&self, key: u64) -> (found: Option<u64>)
        requires
            self.wf(),
        ensures
            match found {
                Some(id) => {
                    &&& self@.contains(IndexEntry { key, id })
                    &&& forall|other: u64| #[trigger]
                        self@.contains(IndexEntry { key, id: other }) ==> id <= other
                },
                None => forall|other: u64| !#[trigger] self@.contains(IndexEntry { key, id: other }),
            },
    {
        let p: usize = self.lower_bound(key, 0);
        if p < self.entries.len() {
            let e: IndexEntry = self.entries[p];
            if e.key == key {
                assert(self@[p as int] == (IndexEntry { key, id: e.id }));
                assert forall|other: u64| #[trigger]
                    self@.contains(IndexEntry { key, id: other }) implies e.id <= other by {
                    let t = IndexEntry { key, id: other };
                    let i = choose|i: int| 0 <= i < self@.len() && self@[i] == t;
                    if i < p {
                        assert(entry_lt(self@[i], IndexEntry { key, id: 0 }));
                    } else if i > p {
                        assert(entry_lt(self@[p as int], self@[i]));
                    }
                }
                return Some(e.id);
            }
        }
        assert forall|other: u64| !#[trigger] self@.contains(IndexEntry { key, id: other }) by {
            let t = IndexEntry { key, id: other };
            if self@.contains(t) {
                let i = choose|i: int| 0 <= i < self@.len() && self@[i] == t;
                if i < p {
                    assert(entry_lt(self@[i], IndexEntry { key, id: 0 }));
                } else if i > p {
                    assert(entry_lt(self@[p as int], self@[i]));
                    assert(!entry_lt(self@[p as int], IndexEntry { key, id: 0 }));
                } else {
                    assert(self@[p as int].key == key);
                }
            }
        }
        None
    }

    /// One page of the identifiers whose key lies in `[min, max]`, both bounds
    /// counted in, in increasing order of key, ties by identifier.
    pub fn range_page(&self, min: u64, max: u64, offset: u64, limit: u64) -> (ids: Vec<u64>)
        requires
            self.wf(),
        ensures
            ids@ == page(self@.filter(key_within(min, max)), offset as nat, limit as nat).map_values(
                entry_id(),
            ),
    {
        let lo: usize = self.lower_bound(min, 0);
        let hi: usize = if max == u64::MAX {
            self.entries.len()
        } else {
            self.lower_bound(max + 1, 0)
        };
        let mut ids: Vec<u64> = Vec::new();
        if hi <= lo {
            proof {
                assert forall|i: int| 0 <= i < self@.len() implies !key_within(min, max)(
                    #[trigger] self@[i],
                ) by {
                    if i < hi {
                        assert(entry_lt(self@[i], IndexEntry { key: min, id: 0 }));
                    } else {
                        if max < u64::MAX {
                            assert(!entry_lt(self@[i], IndexEntry { key: (max + 1) as u64, id: 0 }));
                        }
                        if i < lo {
                            assert(entry_lt(self@[i], IndexEntry { key: min, id: 0 }));
                        } else {
                            assert(!entry_lt(self@[i], IndexEntry { key: min, id: 0 }));
                            if hi < self@.len() && lo < self@.len() && hi < lo {
                                assert(entry_lt(self@[hi as int], self@[lo as int]));
                            }
                        }
                    }
                }
                lemma_filter_stretch(self@, key_within(min, max), 0, 0);
                assert(ids@ =~= page(
                    self@.filter(key_within(min, max)),
                    offset as nat,
                    limit as nat,
                ).map_values(entry_id()));
            }
            return ids;
        }
        proof {
            assert forall|i: int| 0 <= i < self@.len() implies (key_within(min, max)(
                #[trigger] self@[i],
            ) <==> lo <= i < hi) by {
                if i < lo {
                    assert(entry_lt(self@[i], IndexEntry { key: min, id: 0 }));
                } else {
                    assert(!entry_lt(self@[i], IndexEntry { key: min, id: 0 }));
                }
                if max < u64::MAX {
                    if i < hi {
                        assert(entry_lt(self@[i], IndexEntry { key: (max + 1) as u64, id: 0 }));
                    } else {
                        assert(!entry_lt(self@[i], IndexEntry { key: (max + 1) as u64, id: 0 }));
                    }
                }
            }
            lemma_filter_stretch(self@, key_within(min, max), lo as int, hi as int);
        }
        let ghost listing = self@.filter(key_within(min, max));
        let (start, end) = page_bounds(hi - lo, offset, limit);
        let mut i: usize = start;
        while i < end
            invariant
                start <= i <= end <= hi - lo,
                hi <= self@.len(),
                listing == self@.subrange(lo as int, hi as int),
                ids@ == listing.subrange(start as int, i as int).map_values(entry_id()),
            decreases end - i,
        {
            let e: IndexEntry = self.entries[lo + i];
            ids.push(e.id);
            proof {
                assert(listing[i as int] == self@[lo + i]);
                assert(listing.subrange(start as int, i + 1) =~= listing.subrange(
                    start as int,
                    i as int,
                ).push(listing[i as int]));
                assert(ids@ =~= listing.subrange(start as int, i + 1).map_values(entry_id()));
            }
            i = i + 1;
        }
        ids
    }
}

} // verus!
