//! Every operation keeps a valid state valid.

use vstd::prelude::*;
use crate::facts::{lemma_push_lookup, lemma_restatus_lookup, lemma_slot_of};
use crate::model::{distinct_ids, escrow_in, has_id, with_status, LedgerView, Operation};
use crate::types::{Address, Clearance, Escrow, EscrowStatus, RefundHistoryEntry};

verus! {

/// The empty state is valid.
pub proof fn lemma_empty_valid()
    ensures
        LedgerView::empty().valid(),
{
}

/// `init` keeps a valid state valid.
pub proof fn lemma_init_valid(v: LedgerView, admin: Address, asset: Address)
    requires
        v.valid(),
    ensures
        v.after_init(admin, asset).valid(),
{
    let v2 = v.after_init(admin, asset);
    assert(v2.escrows == v.escrows);
    assert forall|k: int| 0 <= k < v2.refunds.len() implies v2.records_refund(
        #[trigger] v2.refunds[k],
    ) by {
        assert(v.records_refund(v.refunds[k]));
    }
}

/// A lock keeps a valid state valid.
pub proof fn lemma_lock_valid(
    v: LedgerView,
    depositor: Address,
    bounty_id: u64,
    amount: u64,
    deadline: u64,
    clearance: Clearance,
)
    requires
        v.valid(),
    ensures
        v.after_lock(depositor, bounty_id, amount, deadline, clearance).valid(),
{
    let v2 = v.after_lock(depositor, bounty_id, amount, deadline, clearance);
    if v.lock_result(depositor, bounty_id, amount, clearance) is Ok {
        let e = Escrow { bounty_id, depositor, amount, deadline, status: EscrowStatus::Locked };
        lemma_push_lookup(v.escrows, e);
        assert(v2.escrows == v.escrows.push(e));
        assert forall|i: int| 0 <= i < v2.escrows.len() implies (#[trigger] v2.escrows[i]).amount
            > 0 by {
            if i < v.escrows.len() {
                assert(v2.escrows[i] == v.escrows[i]);
            }
        }
        assert forall|id: u64| #[trigger]
            v2.released.contains(id) <==> v2.id_has_status(id, EscrowStatus::Released) by {
            assert(v.released.contains(id) <==> v.id_has_status(id, EscrowStatus::Released));
            assert(has_id(v2.escrows, id) <==> (has_id(v.escrows, id) || id == bounty_id));
            if has_id(v.escrows, id) {
                assert(escrow_in(v2.escrows, id) == escrow_in(v.escrows, id));
            }
        }
        assert forall|k: int| 0 <= k < v2.refunds.len() implies v2.records_refund(
            #[trigger] v2.refunds[k],
        ) by {
            let r = v.refunds[k];
            assert(v.records_refund(r));
            assert(has_id(v2.escrows, r.bounty_id) <==> (has_id(v.escrows, r.bounty_id)
                || r.bounty_id == bounty_id));
            assert(escrow_in(v2.escrows, r.bounty_id) == escrow_in(v.escrows, r.bounty_id));
        }
        assert forall|i: int|
            0 <= i < v2.escrows.len() && (#[trigger] v2.escrows[i]).status
                == EscrowStatus::Refunded implies exists|k: int|
            0 <= k < v2.refunds.len() && (#[trigger] v2.refunds[k]).bounty_id
                == v2.escrows[i].bounty_id by {
            assert(v2.escrows[i] == v.escrows[i]);
            assert(v.escrows[i].status == EscrowStatus::Refunded);
        }
    }
}

/// Moving a locked escrow to a terminal status keeps what validity says of the
/// escrows themselves, and of the escrows that the two lists name.
proof fn lemma_restatus_valid(v: LedgerView, bounty_id: u64, to: EscrowStatus, v2: LedgerView)
    requires
        v.valid(),
        v.id_has_status(bounty_id, EscrowStatus::Locked),
        to != EscrowStatus::Locked,
        v2.escrows == v.escrows.update(v.slot_of(bounty_id), with_status(v.escrow(bounty_id), to)),
        v2.config == v.config,
    ensures
        distinct_ids(v2.escrows),
        forall|i: int| 0 <= i < v2.escrows.len() ==> (#[trigger] v2.escrows[i]).amount > 0,
        v2.escrows.len() > 0 ==> v2.config is Some,
        !v.released.contains(bounty_id),
        forall|k: int| 0 <= k < v.refunds.len() ==> (#[trigger] v.refunds[k]).bounty_id != bounty_id,
        forall|id: u64|
            id != bounty_id ==> (#[trigger] v2.id_has_status(id, EscrowStatus::Released)
                <==> v.id_has_status(id, EscrowStatus::Released)),
        forall|id: u64|
            id != bounty_id ==> (#[trigger] v2.id_has_status(id, EscrowStatus::Refunded)
                <==> v.id_has_status(id, EscrowStatus::Refunded)),
        forall|id: u64|
            id != bounty_id && v.contains_id(id) ==> #[trigger] v2.escrow(id) == v.escrow(id),
        v2.id_has_status(bounty_id, to),
        v2.escrow(bounty_id) == with_status(v.escrow(bounty_id), to),
{
    let i = v.slot_of(bounty_id);
    lemma_slot_of(v.escrows, bounty_id);
    lemma_restatus_lookup(v.escrows, i, to);
    assert forall|k: int| 0 <= k < v2.escrows.len() implies (#[trigger] v2.escrows[k]).amount
        > 0 by {
        assert(v.escrows[k].amount > 0);
    }
    assert(v.released.contains(bounty_id) <==> v.id_has_status(
        bounty_id,
        EscrowStatus::Released,
    ));
    assert forall|k: int| 0 <= k < v.refunds.len() implies (#[trigger] v.refunds[k]).bounty_id
        != bounty_id by {
        assert(v.records_refund(v.refunds[k]));
    }
    assert forall|id: u64| id != bounty_id implies (#[trigger] v2.id_has_status(
        id,
        EscrowStatus::Released,
    ) <==> v.id_has_status(id, EscrowStatus::Released)) by {
        assert(has_id(v2.escrows, id) <==> has_id(v.escrows, id));
        if has_id(v.escrows, id) {
            assert(escrow_in(v2.escrows, id) == escrow_in(v.escrows, id));
        }
    }
    assert forall|id: u64| id != bounty_id implies (#[trigger] v2.id_has_status(
        id,
        EscrowStatus::Refunded,
    ) <==> v.id_has_status(id, EscrowStatus::Refunded)) by {
        assert(has_id(v2.escrows, id) <==> has_id(v.escrows, id));
        if has_id(v.escrows, id) {
            assert(escrow_in(v2.escrows, id) == escrow_in(v.escrows, id));
        }
    }
    assert forall|id: u64| id != bounty_id && v.contains_id(id) implies #[trigger] v2.escrow(id)
        == v.escrow(id) by {
        assert(escrow_in(v2.escrows, id) == escrow_in(v.escrows, id));
    }
    assert(has_id(v2.escrows, bounty_id) <==> has_id(v.escrows, bounty_id));
    assert(escrow_in(v2.escrows, bounty_id) == with_status(v.escrows[i], to));
}

/// A release keeps a valid state valid.
pub proof fn lemma_release_valid(
    v: LedgerView,
    bounty_id: u64,
    contributor: Address,
    clearance: Clearance,
)
    requires
        v.valid(),
    ensures
        v.after_release(bounty_id, contributor, clearance).valid(),
{
    let v2 = v.after_release(bounty_id, contributor, clearance);
    if v.release_result(bounty_id, contributor, clearance) is Ok {
        lemma_restatus_valid(v, bounty_id, EscrowStatus::Released, v2);
        assert(v2.released == v.released.push(bounty_id));
        assert(v2.released.no_duplicates()) by {
            assert forall|a: int, b: int|
                0 <= a < v2.released.len() && 0 <= b < v2.released.len() && a != b implies v2.released[a]
                != v2.released[b] by {
                if a < v.released.len() && b < v.released.len() {
                    assert(v.released[a] != v.released[b]);
                } else if a < v.released.len() {
                    assert(v.released.contains(v.released[a]));
                } else if b < v.released.len() {
                    assert(v.released.contains(v.released[b]));
                }
            }
        }
        assert forall|id: u64| #[trigger]
            v2.released.contains(id) <==> v2.id_has_status(id, EscrowStatus::Released) by {
            assert(v.released.contains(id) <==> v.id_has_status(id, EscrowStatus::Released));
            if v2.released.contains(id) {
                let k = choose|k: int| 0 <= k < v2.released.len() && v2.released[k] == id;
                if k < v.released.len() {
                    assert(v.released[k] == id);
                    assert(v.released.contains(id));
                }
            }
            if id == bounty_id {
                assert(v2.released[v.released.len() as int] == id);
            } else if v.released.contains(id) {
                let k = choose|k: int| 0 <= k < v.released.len() && v.released[k] == id;
                assert(v2.released[k] == id);
            }
        }
        assert forall|k: int| 0 <= k < v2.refunds.len() implies v2.records_refund(
            #[trigger] v2.refunds[k],
        ) by {
            let r = v.refunds[k];
            assert(v.records_refund(r));
            assert(r.bounty_id != bounty_id);
            assert(v2.id_has_status(r.bounty_id, EscrowStatus::Refunded));
            assert(v2.escrow(r.bounty_id) == v.escrow(r.bounty_id));
        }
        assert forall|i: int|
            0 <= i < v2.escrows.len() && (#[trigger] v2.escrows[i]).status
                == EscrowStatus::Refunded implies exists|k: int|
            0 <= k < v2.refunds.len() && (#[trigger] v2.refunds[k]).bounty_id
                == v2.escrows[i].bounty_id by {
            assert(v.escrows[i].status == EscrowStatus::Refunded);
        }
    }
}

/// A refund keeps a valid state valid.
pub proof fn lemma_refund_valid(v: LedgerView, bounty_id: u64, now: u64, clearance: Clearance)
    requires
        v.valid(),
    ensures
        v.after_refund(bounty_id, now, clearance).valid(),
{
    let v2 = v.after_refund(bounty_id, now, clearance);
    if v.refund_result(bounty_id, now, clearance) is Ok {
        lemma_restatus_valid(v, bounty_id, EscrowStatus::Refunded, v2);
        let entry = RefundHistoryEntry {
            bounty_id,
            depositor: v.escrow(bounty_id).depositor,
            amount: v.escrow(bounty_id).amount,
            refunded_at: now,
        };
        assert(v2.refunds == v.refunds.push(entry));
        assert forall|id: u64| #[trigger]
            v2.released.contains(id) <==> v2.id_has_status(id, EscrowStatus::Released) by {
            assert(v.released.contains(id) <==> v.id_has_status(id, EscrowStatus::Released));
        }
        assert forall|a: int, b: int| 0 <= a < b < v2.refunds.len() implies (
        #[trigger] v2.refunds[a]).bounty_id != (#[trigger] v2.refunds[b]).bounty_id by {
            if b < v.refunds.len() {
                assert(v.refunds[a].bounty_id != v.refunds[b].bounty_id);
            } else {
                assert(v.refunds[a].bounty_id != bounty_id);
            }
        }
        assert forall|k: int| 0 <= k < v2.refunds.len() implies v2.records_refund(
            #[trigger] v2.refunds[k],
        ) by {
            if k < v.refunds.len() {
                let r = v.refunds[k];
                assert(v.records_refund(r));
                assert(r.bounty_id != bounty_id);
                assert(v2.id_has_status(r.bounty_id, EscrowStatus::Refunded));
                assert(v2.escrow(r.bounty_id) == v.escrow(r.bounty_id));
            } else {
                assert(v2.refunds[k] == entry);
            }
        }
        assert forall|i: int|
            0 <= i < v2.escrows.len() && (#[trigger] v2.escrows[i]).status
                == EscrowStatus::Refunded implies exists|k: int|
            0 <= k < v2.refunds.len() && (#[trigger] v2.refunds[k]).bounty_id
                == v2.escrows[i].bounty_id by {
            if i == v.slot_of(bounty_id) {
                assert(v2.refunds[v.refunds.len() as int].bounty_id == bounty_id);
            } else {
                assert(v.escrows[i].status == EscrowStatus::Refunded);
                let k = choose|k: int|
                    0 <= k < v.refunds.len() && (#[trigger] v.refunds[k]).bounty_id
                        == v.escrows[i].bounty_id;
                assert(v2.refunds[k].bounty_id == v2.escrows[i].bounty_id);
            }
        }
    }
}

/// Every operation keeps a valid state valid.
pub proof fn lemma_step_valid(v: LedgerView, op: Operation)
    requires
        v.valid(),
    ensures
        v.step(op).valid(),
{
    match op {
        Operation::Init { admin, asset } => lemma_init_valid(v, admin, asset),
        Operation::Lock { depositor, bounty_id, amount, deadline, clearance } => lemma_lock_valid(
            v,
            depositor,
            bounty_id,
            amount,
            deadline,
            clearance,
        ),
        Operation::Release { bounty_id, contributor, clearance } => lemma_release_valid(
            v,
            bounty_id,
            contributor,
            clearance,
        ),
        Operation::Refund { bounty_id, now, clearance } => lemma_refund_valid(
            v,
            bounty_id,
            now,
            clearance,
        ),
    }
}

} // verus!
