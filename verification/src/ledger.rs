//! The ledger itself: the record store, the counters, the indices and the
//! refund history, and the operations that keep them in step.

use vstd::prelude::*;
use crate::facts::{
    lemma_filter_within, lemma_lookup_ids, lemma_push_entries, lemma_push_lookup,
    lemma_restatus_counts, lemma_restatus_indices, lemma_restatus_locked, lemma_restatus_lookup,
    lemma_slot, lemma_totals_fit,
};
use crate::index::{
    entry_id, is_ordering_of, key_within, lemma_ordering_of, strictly_sorted, IndexEntry,
    OrderedIndex,
};
use crate::model::{
    amount_entry, deadline_entry, deposited_by, has_id, has_status, id_of, refund_id, slot_in,
    with_status, LedgerView, Operation,
};
use crate::paging::{lemma_page_map, page, page_bounds, page_start};
use crate::seqs::lemma_filter_none;
use crate::types::{
    Address, AggregateStats, Clearance, Config, Error, Escrow, EscrowStatus, Event,
    RefundHistoryEntry, Transfer, TransferKind,
};
use crate::validity::{lemma_init_valid, lemma_lock_valid, lemma_refund_valid, lemma_release_valid};

verus! {

/// The identifiers of the escrows that one depositor funded, in order of creation.
struct DepositorBucket {
    depositor: Address,
    ids: Vec<u64>,
}

/// The slot index files each escrow's position under its identifier.
spec fn slots_match(slots: Seq<IndexEntry>, escrows: Seq<Escrow>) -> bool {
    &&& strictly_sorted(slots)
    &&& forall|en: IndexEntry| #[trigger]
        slots.contains(en) <==> (0 <= en.id < escrows.len() && escrows[en.id as int].bounty_id
            == en.key)
}

/// The locked bucket lists the locked escrows in order of creation.
spec fn locked_match(locked: Seq<u64>, escrows: Seq<Escrow>) -> bool {
    locked == escrows.filter(has_status(EscrowStatus::Locked)).map_values(id_of())
}

/// The depositor index has one bucket for each depositor, which lists that
/// depositor's escrows in order of creation.
spec fn depositors_match(buckets: Seq<DepositorBucket>, escrows: Seq<Escrow>) -> bool {
    &&& forall|a: int, b: int|
        0 <= a < b < buckets.len() ==> (#[trigger] buckets[a]).depositor != (
        #[trigger] buckets[b]).depositor
    &&& forall|b: int|
        0 <= b < buckets.len() ==> (#[trigger] buckets[b]).ids@ == escrows.filter(
            deposited_by(buckets[b].depositor),
        ).map_values(id_of())
    &&& forall|i: int|
        0 <= i < escrows.len() ==> exists|b: int|
            0 <= b < buckets.len() && (#[trigger] buckets[b]).depositor == (
            #[trigger] escrows[i]).depositor
}

/// What the collaborators' report does to an operation that passed the
/// ledger's own checks.
fn cleared(clearance: Clearance) -> (r: Result<(), Error>)
    ensures
        r == (match clearance {
            Clearance::Cleared => Ok::<(), Error>(()),
            Clearance::Unauthorized => Err(Error::Unauthorized),
            Clearance::TransferFailed(code) => Err(Error::TransferFailed(code)),
        }),
{
    match clearance {
        Clearance::Cleared => Ok(()),
        Clearance::Unauthorized => Err(Error::Unauthorized),
        Clearance::TransferFailed(code) => Err(Error::TransferFailed(code)),
    }
}

/// Files the new escrow `e` under its depositor: in that depositor's bucket,
/// or in a new bucket where this is the depositor's first escrow.
#[verifier::loop_isolation(false)]
fn file_under(
    buckets: &mut Vec<DepositorBucket>,
    depositor: Address,
    id: u64,
    Ghost(escrows): Ghost<Seq<Escrow>>,
    Ghost(e): Ghost<Escrow>,
)
    requires
        depositors_match(old(buckets)@, escrows),
        e.depositor == depositor,
        e.bounty_id == id,
    ensures
        depositors_match(final(buckets)@, escrows.push(e)),
{
    let ghost before = buckets@;
    let ghost grown = escrows.push(e);
    proof {
        assert forall|d: Address| #[trigger]
            grown.filter(deposited_by(d)) == (if d == depositor {
                escrows.filter(deposited_by(d)).push(e)
            } else {
                escrows.filter(deposited_by(d))
            }) by {
            escrows.lemma_filter_push(e, deposited_by(d));
        }
    }
    let mut b: usize = 0;
    while b < buckets.len()
        invariant
            b <= buckets@.len(),
            buckets@ == before,
            forall|k: int| 0 <= k < b ==> (#[trigger] before[k]).depositor != depositor,
        decreases buckets@.len() - b,
    {
        if buckets[b].depositor == depositor {
            buckets[b].ids.push(id);
            proof {
                let after = buckets@;
                assert(after.len() == before.len());
                assert forall|k: int| 0 <= k < after.len() implies (#[trigger] after[k]).ids@
                    == grown.filter(deposited_by(after[k].depositor)).map_values(id_of()) by {
                    let d = after[k].depositor;
                    assert(before[k].depositor == d);
                    assert(before[k].ids@ == escrows.filter(deposited_by(d)).map_values(id_of()));
                    if k == b {
                        assert(grown.filter(deposited_by(d)).map_values(id_of())
                            =~= escrows.filter(deposited_by(d)).map_values(id_of()).push(id));
                    } else {
                        if k < b {
                            assert(before[k].depositor != before[b as int].depositor);
                        } else {
                            assert(before[b as int].depositor != before[k].depositor);
                        }
                    }
                }
                assert forall|x: int, y: int| 0 <= x < y < after.len() implies (
                #[trigger] after[x]).depositor != (#[trigger] after[y]).depositor by {
                    assert(before[x].depositor != before[y].depositor);
                }
                assert forall|i: int| 0 <= i < grown.len() implies exists|k: int|
                    0 <= k < after.len() && (#[trigger] after[k]).depositor == (
                    #[trigger] grown[i]).depositor by {
                    if i < escrows.len() {
                        assert(grown[i] == escrows[i]);
                        let k = choose|k: int|
                            0 <= k < before.len() && (#[trigger] before[k]).depositor
                                == escrows[i].depositor;
                        assert(after[k].depositor == grown[i].depositor);
                    } else {
                        assert(after[b as int].depositor == grown[i].depositor);
                    }
                }
            }
            return ;
        }
        b = b + 1;
    }
    let mut ids: Vec<u64> = Vec::new();
    ids.push(id);
    buckets.push(DepositorBucket { depositor, ids });
    proof {
        let after = buckets@;
        assert forall|i: int| 0 <= i < escrows.len() implies !deposited_by(depositor)(
            #[trigger] escrows[i],
        ) by {
            let k = choose|k: int|
                0 <= k < before.len() && (#[trigger] before[k]).depositor == escrows[i].depositor;
            assert(before[k].depositor != depositor);
        }
        lemma_filter_none(escrows, deposited_by(depositor));
        assert forall|k: int| 0 <= k < after.len() implies (#[trigger] after[k]).ids@
            == grown.filter(deposited_by(after[k].depositor)).map_values(id_of()) by {
            let d = after[k].depositor;
            if k < before.len() {
                assert(after[k] == before[k]);
                assert(before[k].depositor != depositor);
            } else {
                assert(grown.filter(deposited_by(d)).map_values(id_of()) =~= seq![id]);
                assert(after[k].ids@ =~= seq![id]);
            }
        }
        assert forall|x: int, y: int| 0 <= x < y < after.len() implies (
        #[trigger] after[x]).depositor != (#[trigger] after[y]).depositor by {
            if y < before.len() {
                assert(before[x].depositor != before[y].depositor);
            } else {
                assert(after[x] == before[x]);
                assert(before[x].depositor != depositor);
            }
        }
        assert forall|i: int| 0 <= i < grown.len() implies exists|k: int|
            0 <= k < after.len() && (#[trigger] after[k]).depositor == (
            #[trigger] grown[i]).depositor by {
            if i < escrows.len() {
                assert(grown[i] == escrows[i]);
                let k = choose|k: int|
                    0 <= k < before.len() && (#[trigger] before[k]).depositor
                        == escrows[i].depositor;
                assert(after[k] == before[k]);
            } else {
                assert(after[before.len() as int].depositor == grown[i].depositor);
            }
        }
    }
}

/// Takes the first occurrence of `id` out of `ids`, the others staying in place.
fn remove_first(ids: &mut Vec<u64>, id: u64)
    ensures
        !old(ids)@.contains(id) ==> final(ids)@ == old(ids)@,
        old(ids)@.contains(id) ==> exists|p: int|
            0 <= p < old(ids)@.len() && #[trigger] old(ids)@[p] == id && final(ids)@ == old(
                ids,
            )@.remove(p),
{
    let mut p: usize = 0;
    while p < ids.len()
        invariant
            p <= ids@.len(),
            ids@ == old(ids)@,
            forall|k: int| 0 <= k < p ==> #[trigger] ids@[k] != id,
        decreases ids@.len() - p,
    {
        if ids[p] == id {
            ids.remove(p);
            return ;
        }
        p = p + 1;
    }
}

/// A copy of the page of `ids` that skips `offset` items and holds at most `limit`.
fn page_of(ids: &Vec<u64>, offset: u64, limit: u64) -> (out: Vec<u64>)
    ensures
        out@ == page(ids@, offset as nat, limit as nat),
{
    let (start, end) = page_bounds(ids.len(), offset, limit);
    let mut out: Vec<u64> = Vec::new();
    let mut i: usize = start;
    while i < end
        invariant
            start <= i <= end <= ids@.len(),
            out@ == ids@.subrange(start as int, i as int),
        decreases end - i,
    {
        out.push(ids[i]);
        proof {
            assert(out@ =~= ids@.subrange(start as int, i + 1));
        }
        i = i + 1;
    }
    out
}

/// The escrow ledger.
pub struct EscrowLedger {
    config: Option<Config>,
    escrows: Vec<Escrow>,
    slots: OrderedIndex,
    escrow_count: u64,
    stats: AggregateStats,
    locked: Vec<u64>,
    released: Vec<u64>,
    refunded: Vec<u64>,
    by_amount: OrderedIndex,
    by_deadline: OrderedIndex,
    by_depositor: Vec<DepositorBucket>,
    refund_history: Vec<RefundHistoryEntry>,
}

impl View for EscrowLedger {
    type V = LedgerView;

    closed spec fn view(&self) -> LedgerView {
        LedgerView {
            config: self.config,
            escrows: self.escrows@,
            released: self.released@,
            refunds: self.refund_history@,
        }
    }
}

impl EscrowLedger {
    /// The counters, the locked bucket and the indices by identifier, amount,
    /// deadline and depositor agree with the record store.
    closed spec fn indexed(&self) -> bool {
        &&& self.slots.wf()
        &&& slots_match(self.slots@, self.escrows@)
        &&& self.escrow_count == self.escrows@.len()
        &&& self@.has_stats(self.stats)
        &&& locked_match(self.locked@, self.escrows@)
        &&& self.by_amount.wf()
        &&& is_ordering_of(self.by_amount@, self@.amount_entries())
        &&& self.by_deadline.wf()
        &&& is_ordering_of(self.by_deadline@, self@.deadline_entries())
        &&& depositors_match(self.by_depositor@, self.escrows@)
    }

    /// The state is valid, and the counters and every index agree with the
    /// record store and the refund history.
    pub closed spec fn wf(&self) -> bool {
        &&& self@.valid()
        &&& self.indexed()
        &&& self.refunded@ == self.refund_history@.map_values(refund_id())
    }

    /// A well-formed ledger is in a valid state, so that every law of valid
    /// states holds of it, and the number of its escrows fits eight bytes.
    pub proof fn law_wf_valid(&self)
        requires
            self.wf(),
        ensures
            self@.valid(),
            self@.escrows.len() <= u64::MAX,
    {
    }

    /// A ledger that has not been initialized and holds nothing.
    pub fn new() -> (ledger: Self)
        ensures
            ledger.wf(),
            ledger@ == LedgerView::empty(),
    {
        let ledger = EscrowLedger {
            config: None,
            escrows: Vec::new(),
            slots: OrderedIndex::new(),
            escrow_count: 0,
            stats: AggregateStats {
                total_locked: 0,
                total_released: 0,
                total_refunded: 0,
                count_locked: 0,
                count_released: 0,
                count_refunded: 0,
            },
            locked: Vec::new(),
            released: Vec::new(),
            refunded: Vec::new(),
            by_amount: OrderedIndex::new(),
            by_deadline: OrderedIndex::new(),
            by_depositor: Vec::new(),
            refund_history: Vec::new(),
        };
        proof {
            let empty = Seq::<Escrow>::empty();
            assert(ledger.escrows@ =~= empty);
            assert(ledger@ == LedgerView::empty());
            lemma_filter_none(empty, has_status(EscrowStatus::Locked));
            lemma_filter_none(empty, has_status(EscrowStatus::Released));
            lemma_filter_none(empty, has_status(EscrowStatus::Refunded));
            assert(ledger.locked@ =~= empty.filter(has_status(EscrowStatus::Locked)).map_values(
                id_of(),
            ));
            assert(ledger.refunded@ =~= ledger.refund_history@.map_values(refund_id()));
            assert(ledger.by_amount@.to_set() =~= ledger@.amount_entries());
            assert(ledger.by_deadline@.to_set() =~= ledger@.deadline_entries());
        }
        ledger
    }

    /// One-time setup: fixes the administrator and the asset. A second call is
    /// refused and changes nothing.
    pub fn init(&mut self, admin: Address, asset: Address) -> (r: Result<(), Error>)
        requires
            old(self).wf(),
        ensures
            final(self).wf(),
            r == old(self)@.init_result(),
            final(self)@ == old(self)@.after_init(admin, asset),
    {
        if self.config.is_some() {
            return Err(Error::AlreadyInitialized);
        }
        proof {
            lemma_init_valid(self@, admin, asset);
        }
        self.config = Some(Config { admin, asset });
        Ok(())
    }

    /// The configuration, once `init` has run.
    pub fn config(&self) -> (c: Option<Config>)
        ensures
            c == self@.config,
    {
        self.config
    }

    /// The position in the record store of the escrow with this identifier.
    fn find(&self, bounty_id: u64) -> (r: Option<usize>)
        requires
            self.wf(),
        ensures
            match r {
                Some(i) => {
                    &&& self@.contains_id(bounty_id)
                    &&& i == self@.slot_of(bounty_id)
                    &&& i < self.escrows@.len()
                    &&& self.escrows@[i as int] == self@.escrow(bounty_id)
                    &&& self.escrows@[i as int].bounty_id == bounty_id
                },
                None => !self@.contains_id(bounty_id),
            },
    {
        match self.slots.first_with_key(bounty_id) {
            Some(slot) => {
                proof {
                    assert(self.slots@.contains(IndexEntry { key: bounty_id, id: slot }));
                    assert(slot < self.escrows.len());
                    lemma_slot(self.escrows@, slot as int);
                }
                Some(slot as usize)
            },
            None => {
                proof {
                    if has_id(self.escrows@, bounty_id) {
                        let i = slot_in(self.escrows@, bounty_id);
                        let en = IndexEntry { key: bounty_id, id: i as u64 };
                        assert(self.escrows@[en.id as int].bounty_id == en.key);
                        assert(self.slots@.contains(en));
                    }
                }
                None
            },
        }
    }

    /// The ledger's own checks on a lock, before anything is moved: the deposit
    /// that the host has to carry out, or why the lock is refused.
    pub fn plan_lock(&self, depositor: Address, bounty_id: u64, amount: u64) -> (r: Result<
        Transfer,
        Error,
    >)
        requires
            self.wf(),
        ensures
            r == self@.plan_lock(depositor, bounty_id, amount),
    {
        match self.config {
            None => Err(Error::NotInitialized),
            Some(config) => {
                if self.find(bounty_id).is_some() {
                    Err(Error::AlreadyExists)
                } else if amount == 0 {
                    Err(Error::InvalidAmount)
                } else {
                    Ok(
                        Transfer {
                            asset: config.asset,
                            kind: TransferKind::Deposit,
                            party: depositor,
                            amount,
                        },
                    )
                }
            },
        }
    }

    /// Creates an escrow, `Locked`, once the depositor has authorized the call
    /// and the deposit has been carried out. A refused lock changes nothing.
    pub fn lock_funds(
        &mut self,
        depositor: Address,
        bounty_id: u64,
        amount: u64,
        deadline: u64,
        clearance: Clearance,
    ) -> (r: Result<Event, Error>)
        requires
            old(self).wf(),
        ensures
            final(self).wf(),
            r == old(self)@.lock_result(depositor, bounty_id, amount, clearance),
            final(self)@ == old(self)@.after_lock(depositor, bounty_id, amount, deadline, clearance),
    {
        if let Err(e) = self.plan_lock(depositor, bounty_id, amount) {
            return Err(e);
        }
        if let Err(e) = cleared(clearance) {
            return Err(e);
        }
        let escrow = Escrow { bounty_id, depositor, amount, deadline, status: EscrowStatus::Locked };
        let ghost v = self@;
        let ghost before = self.escrows@;
        let ghost grown = before.push(escrow);
        let ghost old_slots = self.slots@;
        proof {
            lemma_lock_valid(v, depositor, bounty_id, amount, deadline, clearance);
            lemma_push_lookup(before, escrow);
            lemma_push_entries(before, escrow, amount_entry());
            lemma_push_entries(before, escrow, deadline_entry());
            before.lemma_filter_push(escrow, has_status(EscrowStatus::Locked));
            before.lemma_filter_push(escrow, has_status(EscrowStatus::Released));
            before.lemma_filter_push(escrow, has_status(EscrowStatus::Refunded));
        }
        let slot: usize = self.escrows.len();
        self.escrows.push(escrow);
        let n: usize = self.escrows.len();
        proof {
            assert(self.escrows@ == grown);
            lemma_totals_fit(grown, EscrowStatus::Locked);
            let locked = before.filter(has_status(EscrowStatus::Locked));
            assert(locked.push(escrow).drop_last() =~= locked);
        }
        self.slots.insert(bounty_id, slot as u64);
        proof {
            let new_entry = IndexEntry { key: bounty_id, id: slot as u64 };
            assert forall|en: IndexEntry| #[trigger]
                self.slots@.contains(en) <==> (0 <= en.id < grown.len() && grown[en.id as int].bounty_id
                    == en.key) by {
                assert(self.slots@.to_set().contains(en) <==> old_slots.to_set().insert(
                    new_entry,
                ).contains(en));
                assert(old_slots.contains(en) <==> (0 <= en.id < before.len() && before[en.id as int].bounty_id
                    == en.key));
                if en.id < before.len() {
                    assert(grown[en.id as int] == before[en.id as int]);
                    if before[en.id as int].bounty_id == bounty_id {
                        assert(has_id(before, bounty_id));
                    }
                }
            }
        }
        self.escrow_count = n as u64;
        self.stats.count_locked = self.stats.count_locked + 1;
        self.stats.total_locked = self.stats.total_locked + amount as u128;
        self.locked.push(bounty_id);
        proof {
            assert(self.locked@ =~= grown.filter(has_status(EscrowStatus::Locked)).map_values(
                id_of(),
            ));
        }
        self.by_amount.insert(amount, bounty_id);
        self.by_deadline.insert(deadline, bounty_id);
        file_under(&mut self.by_depositor, depositor, bounty_id, Ghost(before), Ghost(escrow));
        proof {
            assert(self@ == v.after_lock(depositor, bounty_id, amount, deadline, clearance));
        }
        Ok(Event::Locked { bounty_id, amount, depositor })
    }

    /// The position of the escrow with this identifier, where it exists and is
    /// `Locked`.
    fn locate_locked(&self, bounty_id: u64) -> (r: Result<usize, Error>)
        requires
            self.wf(),
        ensures
            match r {
                Ok(i) => {
                    &&& self@.id_has_status(bounty_id, EscrowStatus::Locked)
                    &&& i == self@.slot_of(bounty_id)
                    &&& i < self.escrows@.len()
                    &&& self.escrows@[i as int] == self@.escrow(bounty_id)
                    &&& self.escrows@[i as int].bounty_id == bounty_id
                },
                Err(e) => {
                    &&& !self@.id_has_status(bounty_id, EscrowStatus::Locked)
                    &&& e == (if self@.contains_id(bounty_id) {
                        Error::InvalidStatus
                    } else {
                        Error::NotFound
                    })
                },
            },
    {
        match self.find(bounty_id) {
            None => Err(Error::NotFound),
            Some(slot) => {
                match self.escrows[slot].status {
                    EscrowStatus::Locked => Ok(slot),
                    _ => Err(Error::InvalidStatus),
                }
            },
        }
    }

    /// The payout of `amount` to `party`.
    fn payout(&self, party: Address, amount: u64) -> (r: Result<Transfer, Error>)
        requires
            self.wf(),
            self@.escrows.len() > 0,
        ensures
            r == Ok::<Transfer, Error>(
                Transfer { asset: self@.asset(), kind: TransferKind::Payout, party, amount },
            ),
    {
        match self.config {
            Some(config) => Ok(
                Transfer { asset: config.asset, kind: TransferKind::Payout, party, amount },
            ),
            None => Err(Error::NotInitialized),
        }
    }

    /// The ledger's own checks on a release, before anything is moved: the
    /// payout that the host has to carry out, or why the release is refused.
    pub fn plan_release(&self, bounty_id: u64, contributor: Address) -> (r: Result<Transfer, Error>)
        requires
            self.wf(),
        ensures
            r == self@.plan_release(bounty_id, contributor),
    {
        match self.locate_locked(bounty_id) {
            Err(e) => Err(e),
            Ok(slot) => self.payout(contributor, self.escrows[slot].amount),
        }
    }

    /// The ledger's own checks on a refund at time `now`, before anything is
    /// moved: the payout that the host has to carry out, or why the refund is
    /// refused.
    pub fn plan_refund(&self, bounty_id: u64, now: u64) -> (r: Result<Transfer, Error>)
        requires
            self.wf(),
        ensures
            r == self@.plan_refund(bounty_id, now),
    {
        match self.locate_locked(bounty_id) {
            Err(e) => Err(e),
            Ok(slot) => {
                let escrow: Escrow = self.escrows[slot];
                if now <= escrow.deadline {
                    Err(Error::DeadlineNotReached)
                } else {
                    self.payout(escrow.depositor, escrow.amount)
                }
            },
        }
    }

    /// Moves the locked escrow at `slot` to a terminal status in the record
    /// store, the counters and the locked bucket.
    fn leave_locked(&mut self, slot: usize, to: EscrowStatus) -> (e: Escrow)
        requires
            old(self).wf(),
            slot < old(self).escrows@.len(),
            old(self).escrows@[slot as int].status == EscrowStatus::Locked,
            to != EscrowStatus::Locked,
        ensures
            e == old(self).escrows@[slot as int],
            final(self).escrows@ == old(self).escrows@.update(slot as int, with_status(e, to)),
            final(self).indexed(),
            final(self).config == old(self).config,
            final(self).released@ == old(self).released@,
            final(self).refunded@ == old(self).refunded@,
            final(self).refund_history@ == old(self).refund_history@,
    {
        let e: Escrow = self.escrows[slot];
        let ghost before = self.escrows@;
        let ghost after = before.update(slot as int, with_status(e, to));
        proof {
            lemma_restatus_lookup(before, slot as int, to);
            lemma_restatus_indices(before, slot as int, to);
            lemma_restatus_counts(before, slot as int, to, EscrowStatus::Locked);
            lemma_restatus_counts(before, slot as int, to, EscrowStatus::Released);
            lemma_restatus_counts(before, slot as int, to, EscrowStatus::Refunded);
            lemma_restatus_locked(before, slot as int, to);
            lemma_totals_fit(after, EscrowStatus::Released);
            lemma_totals_fit(after, EscrowStatus::Refunded);
        }
        self.escrows[slot].status = to;
        assert(self.escrows@ == after);
        self.stats.count_locked = self.stats.count_locked - 1;
        self.stats.total_locked = self.stats.total_locked - e.amount as u128;
        match to {
            EscrowStatus::Released => {
                self.stats.count_released = self.stats.count_released + 1;
                self.stats.total_released = self.stats.total_released + e.amount as u128;
            },
            EscrowStatus::Refunded => {
                self.stats.count_refunded = self.stats.count_refunded + 1;
                self.stats.total_refunded = self.stats.total_refunded + e.amount as u128;
            },
            EscrowStatus::Locked => {},
        }
        remove_first(&mut self.locked, e.bounty_id);
        proof {
            assert forall|en: IndexEntry| #[trigger]
                self.slots@.contains(en) <==> (0 <= en.id < after.len() && after[en.id as int].bounty_id
                    == en.key) by {
                if 0 <= en.id < before.len() {
                    assert(after[en.id as int].bounty_id == before[en.id as int].bounty_id);
                }
            }
            assert forall|b: int| 0 <= b < self.by_depositor@.len() implies (
            #[trigger] self.by_depositor@[b]).ids@ == after.filter(
                deposited_by(self.by_depositor@[b].depositor),
            ).map_values(id_of()) by {
                let d = self.by_depositor@[b].depositor;
                assert(after.filter(deposited_by(d)).map_values(id_of()) == before.filter(
                    deposited_by(d),
                ).map_values(id_of()));
            }
            assert forall|i: int| 0 <= i < after.len() implies exists|b: int|
                0 <= b < self.by_depositor@.len() && (#[trigger] self.by_depositor@[b]).depositor
                    == (#[trigger] after[i]).depositor by {
                assert(after[i].depositor == before[i].depositor);
                let b = choose|b: int|
                    0 <= b < self.by_depositor@.len() && (
                    #[trigger] self.by_depositor@[b]).depositor == before[i].depositor;
                assert(self.by_depositor@[b].depositor == after[i].depositor);
            }
        }
        e
    }

    /// Pays a locked escrow out to a contributor, once the payout has been
    /// carried out: the escrow becomes `Released`. No deadline applies. A
    /// refused release changes nothing.
    pub fn release_funds(&mut self, bounty_id: u64, contributor: Address, clearance: Clearance) -> (r:
        Result<Event, Error>)
        requires
            old(self).wf(),
        ensures
            final(self).wf(),
            r == old(self)@.release_result(bounty_id, contributor, clearance),
            final(self)@ == old(self)@.after_release(bounty_id, contributor, clearance),
    {
        let slot: usize = match self.locate_locked(bounty_id) {
            Err(e) => {
                return Err(e);
            },
            Ok(slot) => slot,
        };
        if let Err(e) = cleared(clearance) {
            return Err(e);
        }
        proof {
            lemma_release_valid(self@, bounty_id, contributor, clearance);
        }
        let e: Escrow = self.leave_locked(slot, EscrowStatus::Released);
        self.released.push(bounty_id);
        proof {
            assert(self@ == old(self)@.after_release(bounty_id, contributor, clearance));
        }
        Ok(Event::Released { bounty_id, amount: e.amount, contributor })
    }

    /// Returns a locked escrow to its depositor, once the deadline has passed
    /// and the payout has been carried out: the escrow becomes `Refunded` and
    /// the history gains an entry. A refused refund changes nothing.
    pub fn refund(&mut self, bounty_id: u64, now: u64, clearance: Clearance) -> (r: Result<
        Event,
        Error,
    >)
        requires
            old(self).wf(),
        ensures
            final(self).wf(),
            r == old(self)@.refund_result(bounty_id, now, clearance),
            final(self)@ == old(self)@.after_refund(bounty_id, now, clearance),
    {
        let slot: usize = match self.locate_locked(bounty_id) {
            Err(e) => {
                return Err(e);
            },
            Ok(slot) => slot,
        };
        if now <= self.escrows[slot].deadline {
            return Err(Error::DeadlineNotReached);
        }
        if let Err(e) = cleared(clearance) {
            return Err(e);
        }
        proof {
            lemma_refund_valid(self@, bounty_id, now, clearance);
        }
        let e: Escrow = self.leave_locked(slot, EscrowStatus::Refunded);
        self.refunded.push(bounty_id);
        self.refund_history.push(
            RefundHistoryEntry {
                bounty_id,
                depositor: e.depositor,
                amount: e.amount,
                refunded_at: now,
            },
        );
        proof {
            assert(self@ == old(self)@.after_refund(bounty_id, now, clearance));
            assert(self.refunded@ =~= self.refund_history@.map_values(refund_id()));
        }
        Ok(Event::Refunded { bounty_id, amount: e.amount, depositor: e.depositor })
    }

    /// The per-status counts and sums.
    pub fn get_aggregate_stats(&self) -> (stats: AggregateStats)
        requires
            self.wf(),
        ensures
            self@.has_stats(stats),
    {
        self.stats
    }

    /// The number of escrows ever created. No release and no refund lowers it.
    pub fn get_escrow_count(&self) -> (n: u64)
        requires
            self.wf(),
        ensures
            n == self@.escrows.len(),
    {
        self.escrow_count
    }

    /// The escrows that the identifiers name, in the same order.
    fn collect(&self, ids: &Vec<u64>) -> (out: Vec<Escrow>)
        requires
            self.wf(),
            forall|k: int| 0 <= k < ids@.len() ==> self@.contains_id(#[trigger] ids@[k]),
        ensures
            out@ == ids@.map_values(self@.lookup()),
    {
        let mut out: Vec<Escrow> = Vec::new();
        let mut i: usize = 0;
        while i < ids.len()
            invariant
                self.wf(),
                i <= ids@.len(),
                forall|k: int| 0 <= k < ids@.len() ==> self@.contains_id(#[trigger] ids@[k]),
                out@ == ids@.take(i as int).map_values(self@.lookup()),
            decreases ids@.len() - i,
        {
            assert(self@.contains_id(ids@[i as int]));
            if let Some(slot) = self.find(ids[i]) {
                out.push(self.escrows[slot]);
            }
            proof {
                assert(out@ =~= ids@.take(i + 1).map_values(self@.lookup()));
            }
            i = i + 1;
        }
        proof {
            assert(ids@.take(ids@.len() as int) =~= ids@);
        }
        out
    }

    /// Every identifier of a status bucket names an escrow.
    proof fn lemma_bucket_known(&self, status: EscrowStatus)
        requires
            self.wf(),
        ensures
            forall|k: int|
                0 <= k < self@.ids_with_status(status).len() ==> self@.contains_id(
                    #[trigger] self@.ids_with_status(status)[k],
                ),
    {
        let ids = self@.ids_with_status(status);
        assert forall|k: int| 0 <= k < ids.len() implies self@.contains_id(#[trigger] ids[k]) by {
            match status {
                EscrowStatus::Locked => {
                    let part = self@.escrows.filter(has_status(EscrowStatus::Locked));
                    lemma_filter_within(self@.escrows, has_status(EscrowStatus::Locked));
                    lemma_lookup_ids(self@.escrows, part, self@.lookup());
                    assert(ids[k] == part[k].bounty_id);
                },
                EscrowStatus::Released => {
                    assert(self@.released.contains(ids[k]));
                },
                EscrowStatus::Refunded => {
                    assert(self@.records_refund(self@.refunds[k]));
                },
            }
        }
    }

    /// One page of the identifiers of a status bucket, in the bucket's order.
    /// An offset at or past the end gives an empty page.
    pub fn get_escrow_ids_by_status(&self, status: EscrowStatus, offset: u64, limit: u64) -> (ids:
        Vec<u64>)
        requires
            self.wf(),
        ensures
            ids@ == page(self@.ids_with_status(status), offset as nat, limit as nat),
    {
        match status {
            EscrowStatus::Locked => page_of(&self.locked, offset, limit),
            EscrowStatus::Released => page_of(&self.released, offset, limit),
            EscrowStatus::Refunded => page_of(&self.refunded, offset, limit),
        }
    }

    /// One page of the escrows of a status bucket, in the bucket's order.
    /// An offset at or past the end gives an empty page.
    pub fn query_escrows_by_status(&self, status: EscrowStatus, offset: u64, limit: u64) -> (out:
        Vec<Escrow>)
        requires
            self.wf(),
        ensures
            out@ == page(self@.escrows_with_status(status), offset as nat, limit as nat),
    {
        let ids: Vec<u64> = self.get_escrow_ids_by_status(status, offset, limit);
        proof {
            self.lemma_bucket_known(status);
            lemma_page_map(
                self@.ids_with_status(status),
                self@.lookup(),
                offset as nat,
                limit as nat,
            );
        }
        self.collect(&ids)
    }

    /// The escrows that a page of index entries files.
    fn collect_entries(
        &self,
        ids: &Vec<u64>,
        Ghost(entries): Ghost<Seq<IndexEntry>>,
        Ghost(f): Ghost<spec_fn(Escrow) -> IndexEntry>,
    ) -> (out: Vec<Escrow>)
        requires
            self.wf(),
            ids@ == entries.map_values(entry_id()),
            forall|x: Escrow| (#[trigger] f(x)).id == x.bounty_id,
            forall|k: int|
                0 <= k < entries.len() ==> self@.escrows.map_values(f).contains(
                    #[trigger] entries[k],
                ),
        ensures
            out@ == entries.map_values(self@.lookup_entry()),
    {
        proof {
            assert forall|k: int| 0 <= k < ids@.len() implies self@.contains_id(
                #[trigger] ids@[k],
            ) by {
                let m = self@.escrows.map_values(f);
                assert(m.contains(entries[k]));
                let j = choose|j: int| 0 <= j < m.len() && m[j] == entries[k];
                assert(f(self@.escrows[j]).id == self@.escrows[j].bounty_id);
                assert(self@.escrows[j].bounty_id == ids@[k]);
            }
            assert(ids@.map_values(self@.lookup()) =~= entries.map_values(self@.lookup_entry()));
        }
        self.collect(ids)
    }

    /// One page of the escrows, of any status, whose amount lies in
    /// `[min, max]`, both bounds counted in, in increasing order of amount,
    /// ties by identifier.
    pub fn query_escrows_by_amount(&self, min: u64, max: u64, offset: u64, limit: u64) -> (out: Vec<
        Escrow,
    >)
        requires
            self.wf(),
        ensures
            out@ == page(self@.escrows_by_amount(min, max), offset as nat, limit as nat),
    {
        let ids: Vec<u64> = self.by_amount.range_page(min, max, offset, limit);
        let ghost listing = self.by_amount@.filter(key_within(min, max));
        let ghost entries = page(listing, offset as nat, limit as nat);
        proof {
            lemma_ordering_of(self.by_amount@, self@.amount_entries());
            lemma_page_map(listing, self@.lookup_entry(), offset as nat, limit as nat);
            assert forall|k: int| 0 <= k < entries.len() implies self@.escrows.map_values(
                amount_entry(),
            ).contains(#[trigger] entries[k]) by {
                assert(listing.contains(entries[k]));
                self.by_amount@.lemma_filter_contains_rev(key_within(min, max), entries[k]);
                assert(self.by_amount@.to_set().contains(entries[k]));
            }
        }
        self.collect_entries(&ids, Ghost(entries), Ghost(amount_entry()))
    }

    /// One page of the escrows, of any status, whose deadline lies in
    /// `[min, max]`, both bounds counted in, in increasing order of deadline,
    /// ties by identifier.
    pub fn query_escrows_by_deadline(&self, min: u64, max: u64, offset: u64, limit: u64) -> (out:
        Vec<Escrow>)
        requires
            self.wf(),
        ensures
            out@ == page(self@.escrows_by_deadline(min, max), offset as nat, limit as nat),
    {
        let ids: Vec<u64> = self.by_deadline.range_page(min, max, offset, limit);
        let ghost listing = self.by_deadline@.filter(key_within(min, max));
        let ghost entries = page(listing, offset as nat, limit as nat);
        proof {
            lemma_ordering_of(self.by_deadline@, self@.deadline_entries());
            lemma_page_map(listing, self@.lookup_entry(), offset as nat, limit as nat);
            assert forall|k: int| 0 <= k < entries.len() implies self@.escrows.map_values(
                deadline_entry(),
            ).contains(#[trigger] entries[k]) by {
                assert(listing.contains(entries[k]));
                self.by_deadline@.lemma_filter_contains_rev(key_within(min, max), entries[k]);
                assert(self.by_deadline@.to_set().contains(entries[k]));
            }
        }
        self.collect_entries(&ids, Ghost(entries), Ghost(deadline_entry()))
    }

    /// One page of the escrows that `depositor` funded, in order of creation.
    /// A depositor without escrows gives an empty page.
    pub fn query_escrows_by_depositor(&self, depositor: Address, offset: u64, limit: u64) -> (out:
        Vec<Escrow>)
        requires
            self.wf(),
        ensures
            out@ == page(self@.escrows_by_depositor(depositor), offset as nat, limit as nat),
    {
        let ghost part = self@.escrows.filter(deposited_by(depositor));
        let mut b: usize = 0;
        while b < self.by_depositor.len()
            invariant
                self.wf(),
                b <= self.by_depositor@.len(),
                part == self@.escrows.filter(deposited_by(depositor)),
                forall|k: int|
                    0 <= k < b ==> (#[trigger] self.by_depositor@[k]).depositor != depositor,
            decreases self.by_depositor@.len() - b,
        {
            if self.by_depositor[b].depositor == depositor {
                let ids: Vec<u64> = page_of(&self.by_depositor[b].ids, offset, limit);
                proof {
                    lemma_filter_within(self@.escrows, deposited_by(depositor));
                    lemma_lookup_ids(self@.escrows, part, self@.lookup());
                    lemma_page_map(
                        part.map_values(id_of()),
                        self@.lookup(),
                        offset as nat,
                        limit as nat,
                    );
                    assert forall|k: int| 0 <= k < ids@.len() implies self@.contains_id(
                        #[trigger] ids@[k],
                    ) by {
                        let q = page_start(part.len(), offset as nat) + k;
                        assert(ids@[k] == part[q].bounty_id);
                    }
                }
                return self.collect(&ids);
            }
            b = b + 1;
        }
        proof {
            assert forall|i: int| 0 <= i < self@.escrows.len() implies !deposited_by(depositor)(
                #[trigger] self@.escrows[i],
            ) by {
                let k = choose|k: int|
                    0 <= k < self.by_depositor@.len() && (
                    #[trigger] self.by_depositor@[k]).depositor == self@.escrows[i].depositor;
                assert(self.by_depositor@[k].depositor != depositor);
            }
            lemma_filter_none(self@.escrows, deposited_by(depositor));
            assert(page(part, offset as nat, limit as nat) =~= Seq::<Escrow>::empty());
        }
        Vec::new()
    }

    /// Whether a refund of this escrow would pass the ledger's own checks at
    /// time `now`: the escrow is `Locked` and `now` is past its deadline. An
    /// unknown identifier is reported as such, not as ineligible.
    pub fn get_refund_eligibility(&self, bounty_id: u64, now: u64) -> (r: Result<bool, Error>)
        requires
            self.wf(),
        ensures
            r == (if self@.contains_id(bounty_id) {
                Ok::<bool, Error>(self@.refund_eligible(bounty_id, now))
            } else {
                Err(Error::NotFound)
            }),
    {
        match self.find(bounty_id) {
            None => Err(Error::NotFound),
            Some(slot) => {
                let escrow: Escrow = self.escrows[slot];
                match escrow.status {
                    EscrowStatus::Locked => Ok(now > escrow.deadline),
                    _ => Ok(false),
                }
            },
        }
    }

    /// The completed refunds, in order of completion.
    pub fn get_refund_history(&self) -> (out: Vec<RefundHistoryEntry>)
        requires
            self.wf(),
        ensures
            out@ == self@.refunds,
    {
        let mut out: Vec<RefundHistoryEntry> = Vec::new();
        let mut i: usize = 0;
        while i < self.refund_history.len()
            invariant
                i <= self.refund_history@.len(),
                out@ == self.refund_history@.take(i as int),
            decreases self.refund_history@.len() - i,
        {
            out.push(self.refund_history[i]);
            proof {
                assert(out@ =~= self.refund_history@.take(i + 1));
            }
            i = i + 1;
        }
        proof {
            assert(self.refund_history@.take(self.refund_history@.len() as int)
                =~= self.refund_history@);
        }
        out
    }

    /// Carries out one operation, whichever it is.
    pub fn apply(&mut self, op: Operation) -> (r: Result<Option<Event>, Error>)
        requires
            old(self).wf(),
        ensures
            final(self).wf(),
            r == old(self)@.outcome(op),
            final(self)@ == old(self)@.step(op),
    {
        match op {
            Operation::Init { admin, asset } => match self.init(admin, asset) {
                Ok(_) => Ok(None),
                Err(e) => Err(e),
            },
            Operation::Lock { depositor, bounty_id, amount, deadline, clearance } => {
                match self.lock_funds(depositor, bounty_id, amount, deadline, clearance) {
                    Ok(event) => Ok(Some(event)),
                    Err(e) => Err(e),
                }
            },
            Operation::Release { bounty_id, contributor, clearance } => {
                match self.release_funds(bounty_id, contributor, clearance) {
                    Ok(event) => Ok(Some(event)),
                    Err(e) => Err(e),
                }
            },
            Operation::Refund { bounty_id, now, clearance } => {
                match self.refund(bounty_id, now, clearance) {
                    Ok(event) => Ok(Some(event)),
                    Err(e) => Err(e),
                }
            },
        }
    }

    /// The ledger that a journal of operations leads to from the start: each
    /// operation is applied to what the earlier ones left, and one that is
    /// refused leaves no trace.
    pub fn replay(ops: &Vec<Operation>) -> (ledger: Self)
        ensures
            ledger.wf(),
            ledger@ == LedgerView::empty().run(ops@),
    {
        let mut ledger = EscrowLedger::new();
        let mut i: usize = 0;
        while i < ops.len()
            invariant
                i <= ops@.len(),
                ledger.wf(),
                ledger@ == LedgerView::empty().run(ops@.take(i as int)),
            decreases ops@.len() - i,
        {
            let _ = ledger.apply(ops[i]);
            proof {
                assert(ops@.take(i + 1).drop_last() =~= ops@.take(i as int));
            }
            i = i + 1;
        }
        proof {
            assert(ops@.take(ops@.len() as int) =~= ops@);
        }
        ledger
    }
}

} // verus!
