//! What holds of the ledger in every state that its operations can reach.

use vstd::prelude::*;
use crate::facts::{
    lemma_filter_within, lemma_lookup_ids, lemma_push_lookup, lemma_restatus_lookup, lemma_slot,
    lemma_slot_of,
};
use crate::index::{entry_lt, key_within, lemma_ordering_exists, ordering_of, IndexEntry};
use crate::model::{
    amount_entry, deadline_entry, has_status, id_of, total_amount, LedgerView, Operation,
};
use crate::paging::{lemma_page_all, lemma_page_concat, page};
use crate::seqs::{lemma_filter_keeps_order, lemma_filter_member};
use crate::types::{Clearance, Error, Escrow, EscrowStatus, Event, RefundHistoryEntry};
use crate::validity::{lemma_empty_valid, lemma_step_valid};

verus! {

/// A sequence of operations keeps a valid state valid.
pub proof fn law_run_valid(v: LedgerView, ops: Seq<Operation>)
    requires
        v.valid(),
    ensures
        v.run(ops).valid(),
    decreases ops.len(),
{
    if ops.len() > 0 {
        law_run_valid(v, ops.drop_last());
        lemma_step_valid(v.run(ops.drop_last()), ops.last());
    }
}

/// Every state that the operations can reach from the empty state is valid.
pub proof fn law_reachable_valid(v: LedgerView)
    requires
        v.reachable(),
    ensures
        v.valid(),
{
    let ops = choose|ops: Seq<Operation>| LedgerView::empty().run(ops) == v;
    lemma_empty_valid();
    law_run_valid(LedgerView::empty(), ops);
}

/// An operation that fails leaves the state, and with it the result of every
/// query, as it was.
pub proof fn law_failure_changes_nothing(v: LedgerView, op: Operation)
    requires
        !v.succeeds(op),
    ensures
        v.step(op) == v,
{
}

/// The number of escrows grows by one with each successful lock and is changed
/// by nothing else: no release and no refund lowers it.
pub proof fn law_count_step(v: LedgerView, op: Operation)
    ensures
        v.step(op).escrows.len() == v.escrows.len() + (if op is Lock && v.succeeds(op) {
            1int
        } else {
            0int
        }),
{
}

/// After any sequence of operations the number of escrows is the number
/// before it plus the number of successful locks among them.
pub proof fn law_escrow_count(v: LedgerView, ops: Seq<Operation>)
    ensures
        v.run(ops).escrows.len() == v.escrows.len() + v.successful_locks(ops),
    decreases ops.len(),
{
    if ops.len() > 0 {
        law_escrow_count(v, ops.drop_last());
        law_count_step(v.run(ops.drop_last()), ops.last());
    }
}

/// An operation changes nothing of an existing escrow but its status, and the
/// status only from `Locked` to `Released` or `Refunded`: no escrow is taken
/// away, none moves, and none comes back from a terminal status.
pub proof fn law_escrows_only_end(v: LedgerView, op: Operation, id: u64)
    requires
        v.valid(),
        v.contains_id(id),
    ensures
        v.step(op).contains_id(id),
        v.step(op).slot_of(id) == v.slot_of(id),
        v.step(op).escrow(id).bounty_id == id,
        v.step(op).escrow(id).depositor == v.escrow(id).depositor,
        v.step(op).escrow(id).amount == v.escrow(id).amount,
        v.step(op).escrow(id).deadline == v.escrow(id).deadline,
        v.step(op).escrow(id).status == v.escrow(id).status || (v.escrow(id).status
            == EscrowStatus::Locked && v.step(op).escrow(id).status != EscrowStatus::Locked),
{
    lemma_slot_of(v.escrows, id);
    if v.succeeds(op) {
        match op {
            Operation::Init { admin, asset } => {},
            Operation::Lock { depositor, bounty_id, amount, deadline, clearance } => {
                let e = Escrow {
                    bounty_id,
                    depositor,
                    amount,
                    deadline,
                    status: EscrowStatus::Locked,
                };
                lemma_push_lookup(v.escrows, e);
            },
            Operation::Release { bounty_id, contributor, clearance } => {
                lemma_slot_of(v.escrows, bounty_id);
                lemma_restatus_lookup(v.escrows, v.slot_of(bounty_id), EscrowStatus::Released);
                lemma_slot(v.escrows, v.slot_of(bounty_id));
            },
            Operation::Refund { bounty_id, now, clearance } => {
                lemma_slot_of(v.escrows, bounty_id);
                lemma_restatus_lookup(v.escrows, v.slot_of(bounty_id), EscrowStatus::Refunded);
                lemma_slot(v.escrows, v.slot_of(bounty_id));
            },
        }
    }
}

/// The refund history only grows, and only by a successful refund, which adds
/// one entry at its end: the refunded escrow's identifier, depositor and
/// amount, and the time of the refund.
pub proof fn law_history_append_only(v: LedgerView, op: Operation)
    ensures
        v.step(op).refunds == (match op {
            Operation::Refund { bounty_id, now, clearance } => if v.succeeds(op) {
                v.refunds.push(
                    RefundHistoryEntry {
                        bounty_id,
                        depositor: v.escrow(bounty_id).depositor,
                        amount: v.escrow(bounty_id).amount,
                        refunded_at: now,
                    },
                )
            } else {
                v.refunds
            },
            _ => v.refunds,
        }),
{
}

/// Every escrow is counted under exactly one status: the three counts add up
/// to the number of escrows, and the three sums to the sum of all amounts.
pub proof fn law_counts_sum(v: LedgerView)
    ensures
        v.count_of(EscrowStatus::Locked) + v.count_of(EscrowStatus::Released) + v.count_of(
            EscrowStatus::Refunded,
        ) == v.escrows.len(),
        v.total_of(EscrowStatus::Locked) + v.total_of(EscrowStatus::Released) + v.total_of(
            EscrowStatus::Refunded,
        ) == total_amount(v.escrows),
    decreases v.escrows.len(),
{
    let s = v.escrows;
    if s.len() == 0 {
        assert(s.filter(has_status(EscrowStatus::Locked)).len() <= 0) by {
            s.lemma_filter_len(has_status(EscrowStatus::Locked));
        }
        assert(s.filter(has_status(EscrowStatus::Released)).len() <= 0) by {
            s.lemma_filter_len(has_status(EscrowStatus::Released));
        }
        assert(s.filter(has_status(EscrowStatus::Refunded)).len() <= 0) by {
            s.lemma_filter_len(has_status(EscrowStatus::Refunded));
        }
    } else {
        let v0 = LedgerView { escrows: s.drop_last(), ..v };
        law_counts_sum(v0);
        let x = s.last();
        assert(s =~= s.drop_last().push(x));
        s.drop_last().lemma_filter_push(x, has_status(EscrowStatus::Locked));
        s.drop_last().lemma_filter_push(x, has_status(EscrowStatus::Released));
        s.drop_last().lemma_filter_push(x, has_status(EscrowStatus::Refunded));
        let l0 = s.drop_last().filter(has_status(EscrowStatus::Locked));
        let r0 = s.drop_last().filter(has_status(EscrowStatus::Released));
        let f0 = s.drop_last().filter(has_status(EscrowStatus::Refunded));
        assert(l0.push(x).drop_last() =~= l0);
        assert(r0.push(x).drop_last() =~= r0);
        assert(f0.push(x).drop_last() =~= f0);
    }
}

/// The identifiers of a status bucket are exactly those of the escrows in that
/// status, each once: an identifier that names an escrow is in one bucket and
/// no other, and one that names none is in no bucket.
pub proof fn law_status_ids(v: LedgerView, status: EscrowStatus)
    requires
        v.valid(),
    ensures
        v.ids_with_status(status).no_duplicates(),
        forall|id: u64| #[trigger]
            v.ids_with_status(status).contains(id) <==> v.id_has_status(id, status),
{
    let ids = v.ids_with_status(status);
    match status {
        EscrowStatus::Locked => {
            let pred = has_status(EscrowStatus::Locked);
            let part = v.escrows.filter(pred);
            lemma_filter_within(v.escrows, pred);
            lemma_lookup_ids(v.escrows, part, v.lookup());
            let apart = |a: Escrow, b: Escrow| a.bounty_id != b.bounty_id;
            lemma_filter_keeps_order(v.escrows, pred, apart);
            assert forall|i: int, j: int|
                0 <= i < ids.len() && 0 <= j < ids.len() && i != j implies ids[i] != ids[j] by {
                if i < j {
                    assert(apart(part[i], part[j]));
                } else {
                    assert(apart(part[j], part[i]));
                }
            }
            assert forall|id: u64| #[trigger] ids.contains(id) <==> v.id_has_status(id, status) by {
                if ids.contains(id) {
                    let k = choose|k: int| 0 <= k < ids.len() && ids[k] == id;
                    assert(part[k].bounty_id == id);
                    assert(v.escrows.contains(part[k]));
                    let j = choose|j: int| 0 <= j < v.escrows.len() && v.escrows[j] == part[k];
                    lemma_slot(v.escrows, j);
                }
                if v.id_has_status(id, status) {
                    lemma_slot_of(v.escrows, id);
                    let j = v.slot_of(id);
                    v.escrows.lemma_filter_contains(pred, j);
                    let k = choose|k: int| 0 <= k < part.len() && part[k] == v.escrows[j];
                    assert(ids[k] == id);
                }
            }
        },
        EscrowStatus::Released => {},
        EscrowStatus::Refunded => {
            assert forall|i: int, j: int|
                0 <= i < ids.len() && 0 <= j < ids.len() && i != j implies ids[i] != ids[j] by {
                if i < j {
                    assert(v.refunds[i].bounty_id != v.refunds[j].bounty_id);
                } else {
                    assert(v.refunds[j].bounty_id != v.refunds[i].bounty_id);
                }
            }
            assert forall|id: u64| #[trigger] ids.contains(id) <==> v.id_has_status(id, status) by {
                if ids.contains(id) {
                    let k = choose|k: int| 0 <= k < ids.len() && ids[k] == id;
                    assert(v.records_refund(v.refunds[k]));
                }
                if v.id_has_status(id, status) {
                    lemma_slot_of(v.escrows, id);
                    let j = v.slot_of(id);
                    assert(v.escrows[j].status == EscrowStatus::Refunded);
                    let k = choose|k: int|
                        0 <= k < v.refunds.len() && (#[trigger] v.refunds[k]).bounty_id
                            == v.escrows[j].bounty_id;
                    assert(ids[k] == id);
                }
            }
        },
    }
}

/// A status listing holds exactly the escrows in that status, each once, and
/// as many as the status is counted for. Queried from the start with a limit
/// that covers it, it comes back whole.
pub proof fn law_status_listing(v: LedgerView, status: EscrowStatus, limit: nat)
    requires
        v.valid(),
    ensures
        forall|e: Escrow| #[trigger]
            v.escrows_with_status(status).contains(e) <==> (v.escrows.contains(e) && e.status
                == status),
        v.escrows_with_status(status).no_duplicates(),
        v.escrows_with_status(status).len() == v.count_of(status),
        limit >= v.count_of(status) ==> page(v.escrows_with_status(status), 0, limit)
            == v.escrows_with_status(status),
{
    let ids = v.ids_with_status(status);
    let listing = v.escrows_with_status(status);
    let pred = has_status(status);
    let part = v.escrows.filter(pred);
    law_status_ids(v, status);
    assert forall|k: int| 0 <= k < ids.len() implies v.contains_id(#[trigger] ids[k])
        && listing[k].bounty_id == ids[k] && listing[k].status == status && v.escrows.contains(
        listing[k],
    ) by {
        assert(ids.contains(ids[k]));
        lemma_slot_of(v.escrows, ids[k]);
        assert(v.escrows[v.slot_of(ids[k])] == listing[k]);
    }
    assert forall|e: Escrow| #[trigger]
        listing.contains(e) <==> (v.escrows.contains(e) && e.status == status) by {
        if listing.contains(e) {
            let k = choose|k: int| 0 <= k < listing.len() && listing[k] == e;
            assert(v.contains_id(ids[k]));
        }
        if v.escrows.contains(e) && e.status == status {
            let j = choose|j: int| 0 <= j < v.escrows.len() && v.escrows[j] == e;
            lemma_slot(v.escrows, j);
            assert(v.id_has_status(e.bounty_id, status));
            assert(ids.contains(e.bounty_id));
            let k = choose|k: int| 0 <= k < ids.len() && ids[k] == e.bounty_id;
            assert(listing[k] == e);
        }
    }
    assert forall|i: int, j: int|
        0 <= i < listing.len() && 0 <= j < listing.len() && i != j implies listing[i]
        != listing[j] by {
        assert(v.contains_id(ids[i]));
        assert(v.contains_id(ids[j]));
        assert(ids[i] != ids[j]);
    }
    // both `ids` and the identifiers of `part` list the same set, each once
    let part_ids = part.map_values(id_of());
    lemma_filter_within(v.escrows, pred);
    lemma_lookup_ids(v.escrows, part, v.lookup());
    let apart = |a: Escrow, b: Escrow| a.bounty_id != b.bounty_id;
    lemma_filter_keeps_order(v.escrows, pred, apart);
    assert forall|i: int, j: int|
        0 <= i < part_ids.len() && 0 <= j < part_ids.len() && i != j implies part_ids[i]
        != part_ids[j] by {
        if i < j {
            assert(apart(part[i], part[j]));
        } else {
            assert(apart(part[j], part[i]));
        }
    }
    assert forall|id: u64| part_ids.to_set().contains(id) <==> ids.to_set().contains(id) by {
        if part_ids.contains(id) {
            let k = choose|k: int| 0 <= k < part_ids.len() && part_ids[k] == id;
            assert(part[k].bounty_id == id);
            assert(v.escrows.contains(part[k]));
            let j = choose|j: int| 0 <= j < v.escrows.len() && v.escrows[j] == part[k];
            lemma_slot(v.escrows, j);
            assert(v.id_has_status(id, status));
            assert(ids.contains(id));
        }
        if ids.contains(id) {
            assert(v.id_has_status(id, status));
            lemma_slot_of(v.escrows, id);
            let j = v.slot_of(id);
            v.escrows.lemma_filter_contains(pred, j);
            let k = choose|k: int| 0 <= k < part.len() && part[k] == v.escrows[j];
            assert(part_ids[k] == id);
        }
    }
    assert(part_ids.to_set() =~= ids.to_set());
    part_ids.unique_seq_to_set();
    ids.unique_seq_to_set();
    if limit >= v.count_of(status) {
        lemma_page_all(listing, limit);
    }
}

/// Two consecutive pages of a status listing, joined, are the one page that
/// covers both: nothing is left out and nothing comes twice.
pub proof fn law_status_pages(v: LedgerView, status: EscrowStatus, k: nat, m: nat)
    requires
        v.valid(),
    ensures
        page(v.escrows_with_status(status), 0, k) + page(v.escrows_with_status(status), k, m)
            == page(v.escrows_with_status(status), 0, k + m),
        page(v.escrows_with_status(status), 0, k + m).no_duplicates(),
{
    let listing = v.escrows_with_status(status);
    lemma_page_concat(listing, 0, k, m);
    law_status_listing(v, status, 0);
    let whole = page(listing, 0, k + m);
    assert forall|i: int, j: int|
        0 <= i < whole.len() && 0 <= j < whole.len() && i != j implies whole[i] != whole[j] by {
        assert(whole[i] == listing[i]);
        assert(whole[j] == listing[j]);
    }
}

/// What an index lists between two keys: only escrows of the state whose key
/// lies in `[min, max]`, every such escrow whatever its status, in strictly
/// increasing order of key and identifier.
proof fn lemma_range_listing(
    v: LedgerView,
    f: spec_fn(Escrow) -> IndexEntry,
    min: u64,
    max: u64,
)
    requires
        v.valid(),
        forall|x: Escrow| (#[trigger] f(x)).id == x.bounty_id,
    ensures
        ({
            let listing = ordering_of(v.escrows.map_values(f).to_set()).filter(
                key_within(min, max),
            );
            let found = listing.map_values(v.lookup_entry());
            &&& forall|k: int|
                0 <= k < found.len() ==> v.escrows.contains(#[trigger] found[k]) && f(found[k])
                    == listing[k] && min <= listing[k].key <= max
            &&& forall|j: int|
                0 <= j < v.escrows.len() && min <= f(#[trigger] v.escrows[j]).key <= max
                    ==> found.contains(v.escrows[j])
            &&& forall|i: int, j: int|
                0 <= i < j < listing.len() ==> entry_lt(#[trigger] listing[i], #[trigger] listing[j])
        }),
{
    let entries = v.escrows.map_values(f);
    let whole = ordering_of(entries.to_set());
    let pred = key_within(min, max);
    let listing = whole.filter(pred);
    let found = listing.map_values(v.lookup_entry());
    lemma_ordering_exists(entries);
    let before = |a: IndexEntry, b: IndexEntry| entry_lt(a, b);
    lemma_filter_keeps_order(whole, pred, before);
    assert forall|i: int, j: int| 0 <= i < j < listing.len() implies entry_lt(
        #[trigger] listing[i],
        #[trigger] listing[j],
    ) by {
        assert(before(listing[i], listing[j]));
    }
    assert forall|k: int| 0 <= k < found.len() implies v.escrows.contains(#[trigger] found[k])
        && f(found[k]) == listing[k] && min <= listing[k].key <= max by {
        lemma_filter_member(whole, pred, k);
        assert(whole.to_set().contains(listing[k]));
        assert(entries.contains(listing[k]));
        let j = choose|j: int| 0 <= j < entries.len() && entries[j] == listing[k];
        assert(f(v.escrows[j]).id == v.escrows[j].bounty_id);
        lemma_slot(v.escrows, j);
        assert(found[k] == v.escrows[j]);
    }
    assert forall|j: int|
        0 <= j < v.escrows.len() && min <= f(#[trigger] v.escrows[j]).key <= max implies found.contains(
        v.escrows[j],
    ) by {
        let en = f(v.escrows[j]);
        assert(entries[j] == en);
        assert(entries.to_set().contains(en));
        assert(whole.contains(en));
        let p = choose|p: int| 0 <= p < whole.len() && whole[p] == en;
        whole.lemma_filter_contains(pred, p);
        let k = choose|k: int| 0 <= k < listing.len() && listing[k] == en;
        assert(f(v.escrows[j]).id == v.escrows[j].bounty_id);
        lemma_slot(v.escrows, j);
        assert(found[k] == v.escrows[j]);
    }
}

/// A range query by amount lists only escrows whose amount lies in
/// `[min, max]`, both bounds counted in; it lists every such escrow, whatever
/// its status; and it lists them in increasing order of amount, ties by
/// identifier, so none comes twice.
pub proof fn law_amount_range(v: LedgerView, min: u64, max: u64)
    requires
        v.valid(),
    ensures
        forall|k: int|
            0 <= k < v.escrows_by_amount(min, max).len() ==> v.escrows.contains(
                #[trigger] v.escrows_by_amount(min, max)[k],
            ) && min <= v.escrows_by_amount(min, max)[k].amount <= max,
        forall|e: Escrow|
            v.escrows.contains(e) && min <= e.amount <= max ==> #[trigger] v.escrows_by_amount(
                min,
                max,
            ).contains(e),
        forall|i: int, j: int|
            0 <= i < j < v.escrows_by_amount(min, max).len() ==> {
                let a = #[trigger] v.escrows_by_amount(min, max)[i];
                let b = #[trigger] v.escrows_by_amount(min, max)[j];
                a.amount < b.amount || (a.amount == b.amount && a.bounty_id < b.bounty_id)
            },
{
    lemma_range_listing(v, amount_entry(), min, max);
    let found = v.escrows_by_amount(min, max);
    assert forall|e: Escrow| v.escrows.contains(e) && min <= e.amount <= max implies #[trigger] found.contains(
        e,
    ) by {
        let j = choose|j: int| 0 <= j < v.escrows.len() && v.escrows[j] == e;
        assert(min <= amount_entry()(v.escrows[j]).key <= max);
    }
}

/// A range query by deadline lists only escrows whose deadline lies in
/// `[min, max]`, both bounds counted in; it lists every such escrow, whatever
/// its status; and it lists them in increasing order of deadline, ties by
/// identifier, so none comes twice.
pub proof fn law_deadline_range(v: LedgerView, min: u64, max: u64)
    requires
        v.valid(),
    ensures
        forall|k: int|
            0 <= k < v.escrows_by_deadline(min, max).len() ==> v.escrows.contains(
                #[trigger] v.escrows_by_deadline(min, max)[k],
            ) && min <= v.escrows_by_deadline(min, max)[k].deadline <= max,
        forall|e: Escrow|
            v.escrows.contains(e) && min <= e.deadline <= max ==> #[trigger] v.escrows_by_deadline(
                min,
                max,
            ).contains(e),
        forall|i: int, j: int|
            0 <= i < j < v.escrows_by_deadline(min, max).len() ==> {
                let a = #[trigger] v.escrows_by_deadline(min, max)[i];
                let b = #[trigger] v.escrows_by_deadline(min, max)[j];
                a.deadline < b.deadline || (a.deadline == b.deadline && a.bounty_id < b.bounty_id)
            },
{
    lemma_range_listing(v, deadline_entry(), min, max);
    let found = v.escrows_by_deadline(min, max);
    assert forall|e: Escrow| v.escrows.contains(e) && min <= e.deadline <= max implies #[trigger] found.contains(
        e,
    ) by {
        let j = choose|j: int| 0 <= j < v.escrows.len() && v.escrows[j] == e;
        assert(min <= deadline_entry()(v.escrows[j]).key <= max);
    }
}

/// A refund succeeds exactly when the escrow is `Locked`, the current time is
/// past its deadline and the collaborators cleared it. A refund of a locked
/// escrow at or before its deadline fails with `DeadlineNotReached`, whatever
/// the collaborators report, and changes nothing.
pub proof fn law_refund(v: LedgerView, bounty_id: u64, now: u64, clearance: Clearance)
    ensures
        v.refund_result(bounty_id, now, clearance) is Ok <==> (v.id_has_status(
            bounty_id,
            EscrowStatus::Locked,
        ) && now > v.escrow(bounty_id).deadline && clearance == Clearance::Cleared),
        v.id_has_status(bounty_id, EscrowStatus::Locked) && now <= v.escrow(bounty_id).deadline ==> {
            &&& v.refund_result(bounty_id, now, clearance) == Err::<Event, Error>(
                Error::DeadlineNotReached,
            )
            &&& v.after_refund(bounty_id, now, clearance) == v
        },
{
}

} // verus!
