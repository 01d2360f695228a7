//! Facts about listings of escrows: how lookups, filters and sums change when
//! an escrow is added or changes its status.

use vstd::prelude::*;
use crate::index::IndexEntry;
use crate::model::{
    amount_entry, deadline_entry, deposited_by, distinct_ids, escrow_in, has_id, has_status, id_of,
    slot_in, total_amount, with_status,
};
use crate::seqs::{
    lemma_filter_around, lemma_filter_member, lemma_filter_split, lemma_map_add, singleton_if,
};
use crate::types::{Address, Escrow, EscrowStatus};

verus! {

/// Where identifiers are unique, the escrow at a position is the one that its
/// identifier names.
pub proof fn lemma_slot(escrows: Seq<Escrow>, i: int)
    requires
        distinct_ids(escrows),
        0 <= i < escrows.len(),
    ensures
        has_id(escrows, escrows[i].bounty_id),
        slot_in(escrows, escrows[i].bounty_id) == i,
        escrow_in(escrows, escrows[i].bounty_id) == escrows[i],
{
    let id = escrows[i].bounty_id;
    let j = slot_in(escrows, id);
    assert(0 <= j < escrows.len() && escrows[j].bounty_id == id);
    if j < i {
        assert(escrows[j].bounty_id != escrows[i].bounty_id);
    }
    if i < j {
        assert(escrows[i].bounty_id != escrows[j].bounty_id);
    }
}

/// The escrow that an identifier names sits at its slot.
pub proof fn lemma_slot_of(escrows: Seq<Escrow>, id: u64)
    requires
        has_id(escrows, id),
    ensures
        0 <= slot_in(escrows, id) < escrows.len(),
        escrows[slot_in(escrows, id)].bounty_id == id,
        escrow_in(escrows, id).bounty_id == id,
{
}

/// The sum of a joined listing is the sum of the sums.
pub proof fn lemma_total_add(a: Seq<Escrow>, b: Seq<Escrow>)
    ensures
        total_amount(a + b) == total_amount(a) + total_amount(b),
    decreases b.len(),
{
    if b.len() == 0 {
        assert(a + b =~= a);
    } else {
        assert((a + b).drop_last() =~= a + b.drop_last());
        lemma_total_add(a, b.drop_last());
    }
}

/// The sum of a single escrow is its amount.
pub proof fn lemma_total_one(x: Escrow)
    ensures
        total_amount(seq![x]) == x.amount,
        total_amount(Seq::<Escrow>::empty()) == 0,
{
    assert(seq![x].drop_last() =~= Seq::<Escrow>::empty());
    reveal_with_fuel(total_amount, 2);
}

/// A sum of amounts is at most the largest amount times the number of escrows.
pub proof fn lemma_total_bound(s: Seq<Escrow>)
    ensures
        total_amount(s) <= s.len() * u64::MAX,
    decreases s.len(),
{
    if s.len() > 0 {
        lemma_total_bound(s.drop_last());
        assert(s.drop_last().len() * u64::MAX + u64::MAX == s.len() * u64::MAX) by (nonlinear_arith)
            requires
                s.drop_last().len() + 1 == s.len(),
        ;
    }
}

/// What is left of the sums and counts of a status: at most every escrow at
/// the largest amount, which fits sixteen bytes.
pub proof fn lemma_totals_fit(escrows: Seq<Escrow>, status: EscrowStatus)
    requires
        escrows.len() <= u64::MAX,
    ensures
        escrows.filter(has_status(status)).len() <= escrows.len(),
        total_amount(escrows.filter(has_status(status))) <= u128::MAX,
{
    let f = escrows.filter(has_status(status));
    escrows.lemma_filter_len(has_status(status));
    lemma_total_bound(f);
    assert(f.len() * u64::MAX <= u128::MAX) by (nonlinear_arith)
        requires
            f.len() <= u64::MAX,
    ;
}

/// Adding an escrow under a fresh identifier: the old lookups stay and the new
/// identifier names the new escrow.
pub proof fn lemma_push_lookup(escrows: Seq<Escrow>, e: Escrow)
    requires
        distinct_ids(escrows),
        !has_id(escrows, e.bounty_id),
    ensures
        distinct_ids(escrows.push(e)),
        has_id(escrows.push(e), e.bounty_id),
        slot_in(escrows.push(e), e.bounty_id) == escrows.len(),
        escrow_in(escrows.push(e), e.bounty_id) == e,
        forall|id: u64| #[trigger]
            has_id(escrows.push(e), id) <==> (has_id(escrows, id) || id == e.bounty_id),
        forall|id: u64|
            has_id(escrows, id) ==> #[trigger] slot_in(escrows.push(e), id) == slot_in(escrows, id),
        forall|id: u64|
            has_id(escrows, id) ==> #[trigger] escrow_in(escrows.push(e), id) == escrow_in(
                escrows,
                id,
            ),
{
    let s2 = escrows.push(e);
    assert forall|i: int, j: int| 0 <= i < j < s2.len() implies (#[trigger] s2[i]).bounty_id != (
    #[trigger] s2[j]).bounty_id by {
        if j < escrows.len() {
            assert(escrows[i].bounty_id != escrows[j].bounty_id);
        } else {
            assert(s2[i] == escrows[i]);
            if escrows[i].bounty_id == e.bounty_id {
                assert(has_id(escrows, e.bounty_id));
            }
        }
    }
    assert(s2[escrows.len() as int] == e);
    lemma_slot(s2, escrows.len() as int);
    assert forall|id: u64| #[trigger]
        has_id(s2, id) <==> (has_id(escrows, id) || id == e.bounty_id) by {
        if has_id(s2, id) {
            let i = slot_in(s2, id);
            if i < escrows.len() {
                assert(escrows[i].bounty_id == id);
            }
        }
        if has_id(escrows, id) {
            let i = slot_in(escrows, id);
            assert(s2[i].bounty_id == id);
        }
    }
    assert forall|id: u64| has_id(escrows, id) implies #[trigger] slot_in(s2, id) == slot_in(
        escrows,
        id,
    ) by {
        let i = slot_in(escrows, id);
        assert(s2[i] == escrows[i]);
        lemma_slot(s2, i);
    }
    assert forall|id: u64| has_id(escrows, id) implies #[trigger] escrow_in(s2, id) == escrow_in(
        escrows,
        id,
    ) by {
        let i = slot_in(escrows, id);
        assert(s2[i] == escrows[i]);
        lemma_slot(s2, i);
    }
}

/// Adding an escrow adds its entry to each index.
pub proof fn lemma_push_entries(escrows: Seq<Escrow>, e: Escrow, f: spec_fn(Escrow) -> IndexEntry)
    ensures
        escrows.push(e).map_values(f).to_set() =~= escrows.map_values(f).to_set().insert(f(e)),
{
    let s2 = escrows.push(e);
    let m = escrows.map_values(f);
    let m2 = s2.map_values(f);
    assert(m2 =~= m.push(f(e)));
    assert forall|x: IndexEntry| m2.to_set().contains(x) <==> m.to_set().insert(f(e)).contains(
        x,
    ) by {
        if m2.contains(x) {
            let k = choose|k: int| 0 <= k < m2.len() && m2[k] == x;
            if k < m.len() {
                assert(m[k] == x);
            }
        }
        if m.contains(x) {
            let k = choose|k: int| 0 <= k < m.len() && m[k] == x;
            assert(m2[k] == x);
        }
        if x == f(e) {
            assert(m2[m.len() as int] == x);
        }
    }
}

/// Changing the status of the escrow at a position leaves identifiers, slots
/// and every other escrow as they were.
pub proof fn lemma_restatus_lookup(escrows: Seq<Escrow>, i: int, to: EscrowStatus)
    requires
        distinct_ids(escrows),
        0 <= i < escrows.len(),
    ensures
        distinct_ids(escrows.update(i, with_status(escrows[i], to))),
        forall|id: u64| #[trigger]
            has_id(escrows.update(i, with_status(escrows[i], to)), id) <==> has_id(escrows, id),
        forall|id: u64|
            has_id(escrows, id) ==> #[trigger] slot_in(
                escrows.update(i, with_status(escrows[i], to)),
                id,
            ) == slot_in(escrows, id),
        forall|id: u64|
            has_id(escrows, id) ==> #[trigger] escrow_in(
                escrows.update(i, with_status(escrows[i], to)),
                id,
            ) == (if id == escrows[i].bounty_id {
                with_status(escrows[i], to)
            } else {
                escrow_in(escrows, id)
            }),
{
    let s2 = escrows.update(i, with_status(escrows[i], to));
    assert forall|a: int, b: int| 0 <= a < b < s2.len() implies (#[trigger] s2[a]).bounty_id != (
    #[trigger] s2[b]).bounty_id by {
        assert(escrows[a].bounty_id != escrows[b].bounty_id);
    }
    assert forall|id: u64| #[trigger] has_id(s2, id) <==> has_id(escrows, id) by {
        if has_id(s2, id) {
            let k = slot_in(s2, id);
            assert(escrows[k].bounty_id == id);
        }
        if has_id(escrows, id) {
            let k = slot_in(escrows, id);
            assert(s2[k].bounty_id == id);
        }
    }
    assert forall|id: u64| has_id(escrows, id) implies #[trigger] slot_in(s2, id) == slot_in(
        escrows,
        id,
    ) by {
        let k = slot_in(escrows, id);
        assert(s2[k].bounty_id == id);
        lemma_slot(s2, k);
    }
    assert forall|id: u64| has_id(escrows, id) implies #[trigger] escrow_in(s2, id) == (if id
        == escrows[i].bounty_id {
        with_status(escrows[i], to)
    } else {
        escrow_in(escrows, id)
    }) by {
        let k = slot_in(escrows, id);
        assert(s2[k].bounty_id == id);
        lemma_slot(s2, k);
        lemma_slot(escrows, i);
    }
}

/// Changing a status changes no index entry and no depositor's listing of
/// identifiers.
pub proof fn lemma_restatus_indices(escrows: Seq<Escrow>, i: int, to: EscrowStatus)
    requires
        0 <= i < escrows.len(),
    ensures
        escrows.update(i, with_status(escrows[i], to)).map_values(amount_entry())
            == escrows.map_values(amount_entry()),
        escrows.update(i, with_status(escrows[i], to)).map_values(deadline_entry())
            == escrows.map_values(deadline_entry()),
        forall|d: Address| #[trigger]
            escrows.update(i, with_status(escrows[i], to)).filter(deposited_by(d)).map_values(
                id_of(),
            ) == escrows.filter(deposited_by(d)).map_values(id_of()),
{
    let e = escrows[i];
    let e2 = with_status(e, to);
    let s2 = escrows.update(i, e2);
    assert(s2.map_values(amount_entry()) =~= escrows.map_values(amount_entry()));
    assert(s2.map_values(deadline_entry()) =~= escrows.map_values(deadline_entry()));
    assert forall|d: Address| #[trigger]
        s2.filter(deposited_by(d)).map_values(id_of()) == escrows.filter(
            deposited_by(d),
        ).map_values(id_of()) by {
        let p = deposited_by(d);
        let a = escrows.take(i).filter(p);
        let c = escrows.skip(i + 1).filter(p);
        lemma_filter_around(escrows, i, e2, p);
        lemma_filter_split(escrows, i, p);
        lemma_map_add(a + singleton_if(p(e2), e2), c, id_of());
        lemma_map_add(a, singleton_if(p(e2), e2), id_of());
        lemma_map_add(a + singleton_if(p(e), e), c, id_of());
        lemma_map_add(a, singleton_if(p(e), e), id_of());
        assert(singleton_if(p(e2), e2).map_values(id_of()) =~= singleton_if(p(e), e).map_values(
            id_of(),
        ));
    }
}

/// Changing the status of an escrow moves it from the count and sum of the old
/// status to those of the new one, and leaves every other status as it was.
pub proof fn lemma_restatus_counts(
    escrows: Seq<Escrow>,
    i: int,
    to: EscrowStatus,
    status: EscrowStatus,
)
    requires
        0 <= i < escrows.len(),
        escrows[i].status != to,
    ensures
        escrows.update(i, with_status(escrows[i], to)).filter(has_status(status)).len()
            == escrows.filter(has_status(status)).len() + (if status == to {
            1int
        } else {
            0int
        }) - (if status == escrows[i].status {
            1int
        } else {
            0int
        }),
        total_amount(escrows.update(i, with_status(escrows[i], to)).filter(has_status(status)))
            == total_amount(escrows.filter(has_status(status))) + (if status == to {
            escrows[i].amount as int
        } else {
            0int
        }) - (if status == escrows[i].status {
            escrows[i].amount as int
        } else {
            0int
        }),
{
    let e = escrows[i];
    let e2 = with_status(e, to);
    let p = has_status(status);
    let a = escrows.take(i).filter(p);
    let c = escrows.skip(i + 1).filter(p);
    lemma_filter_around(escrows, i, e2, p);
    lemma_filter_split(escrows, i, p);
    lemma_total_add(a + singleton_if(p(e2), e2), c);
    lemma_total_add(a, singleton_if(p(e2), e2));
    lemma_total_add(a + singleton_if(p(e), e), c);
    lemma_total_add(a, singleton_if(p(e), e));
    lemma_total_one(e);
    lemma_total_one(e2);
}

/// Moving an escrow out of `Locked` takes its identifier, which occurs once,
/// out of the listing of locked identifiers, and leaves the others in place.
pub proof fn lemma_restatus_locked(escrows: Seq<Escrow>, i: int, to: EscrowStatus)
    requires
        distinct_ids(escrows),
        0 <= i < escrows.len(),
        escrows[i].status == EscrowStatus::Locked,
        to != EscrowStatus::Locked,
    ensures
        escrows.filter(has_status(EscrowStatus::Locked)).map_values(id_of()).contains(
            escrows[i].bounty_id,
        ),
        forall|p: int|
            0 <= p < escrows.filter(has_status(EscrowStatus::Locked)).len() && (
            #[trigger] escrows.filter(has_status(EscrowStatus::Locked)).map_values(id_of())[p])
                == escrows[i].bounty_id ==> escrows.update(i, with_status(escrows[i], to)).filter(
                has_status(EscrowStatus::Locked),
            ).map_values(id_of()) == escrows.filter(has_status(EscrowStatus::Locked)).map_values(
                id_of(),
            ).remove(p),
{
    let e = escrows[i];
    let e2 = with_status(e, to);
    let pred = has_status(EscrowStatus::Locked);
    let a = escrows.take(i).filter(pred);
    let c = escrows.skip(i + 1).filter(pred);
    lemma_filter_around(escrows, i, e2, pred);
    lemma_filter_split(escrows, i, pred);
    let before = escrows.filter(pred);
    let after = escrows.update(i, e2).filter(pred);
    assert(before == a + seq![e] + c);
    assert(after =~= a + c);
    let ids = before.map_values(id_of());
    assert(ids[a.len() as int] == e.bounty_id);
    assert(ids.contains(e.bounty_id));
    assert forall|p: int| 0 <= p < before.len() && (#[trigger] ids[p]) == e.bounty_id implies p
        == a.len() by {
        if p < a.len() {
            lemma_filter_member(escrows.take(i), pred, p);
            let x = a[p];
            let front = escrows.take(i);
            let j = choose|j: int| 0 <= j < front.len() && front[j] == x;
            assert(escrows[j] == x);
            assert(escrows[j].bounty_id != escrows[i].bounty_id);
        } else if p > a.len() {
            let q = p - a.len() - 1;
            lemma_filter_member(escrows.skip(i + 1), pred, q);
            let x = c[q];
            assert(before[p] == x);
            let rest = escrows.skip(i + 1);
            let j = choose|j: int| 0 <= j < rest.len() && rest[j] == x;
            assert(escrows[i + 1 + j] == x);
            assert(escrows[i].bounty_id != escrows[i + 1 + j].bounty_id);
        }
    }
    assert(after.map_values(id_of()) =~= ids.remove(a.len() as int));
}

/// Looking up the identifiers of escrows of the listing gives those escrows back.
pub proof fn lemma_lookup_ids(escrows: Seq<Escrow>, part: Seq<Escrow>, lookup: spec_fn(u64) -> Escrow)
    requires
        distinct_ids(escrows),
        forall|k: int| 0 <= k < part.len() ==> escrows.contains(#[trigger] part[k]),
        forall|id: u64| #[trigger] lookup(id) == escrow_in(escrows, id),
    ensures
        part.map_values(id_of()).map_values(lookup) == part,
        forall|k: int| 0 <= k < part.len() ==> has_id(escrows, (#[trigger] part[k]).bounty_id),
{
    assert forall|k: int| 0 <= k < part.len() implies has_id(
        escrows,
        (#[trigger] part[k]).bounty_id,
    ) && lookup(part[k].bounty_id) == part[k] by {
        let x = part[k];
        assert(escrows.contains(x));
        let j = choose|j: int| 0 <= j < escrows.len() && escrows[j] == x;
        lemma_slot(escrows, j);
    }
    assert(part.map_values(id_of()).map_values(lookup) =~= part);
}

/// Every item of a filtered listing of escrows is an escrow of the listing.
pub proof fn lemma_filter_within(escrows: Seq<Escrow>, pred: spec_fn(Escrow) -> bool)
    ensures
        forall|k: int|
            0 <= k < escrows.filter(pred).len() ==> escrows.contains(
                #[trigger] escrows.filter(pred)[k],
            ) && pred(escrows.filter(pred)[k]),
{
    assert forall|k: int| 0 <= k < escrows.filter(pred).len() implies escrows.contains(
        #[trigger] escrows.filter(pred)[k],
    ) && pred(escrows.filter(pred)[k]) by {
        lemma_filter_member(escrows, pred, k);
    }
}

} // verus!
