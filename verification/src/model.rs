//! The mathematical model of the ledger: what a state is, which states are
//! valid, what each operation does to a state, and what each query reads off it.

use vstd::prelude::*;
use crate::index::{IndexEntry, key_within, ordering_of};
use crate::types::{
    Address, AggregateStats, Clearance, Config, Error, Escrow, EscrowStatus, Event,
    RefundHistoryEntry, Transfer, TransferKind,
};

verus! {

/// The escrow is in `status`.
pub open spec fn has_status(status: EscrowStatus) -> spec_fn(Escrow) -> bool {
    |e: Escrow| e.status == status
}

/// The escrow was funded by `depositor`.
pub open spec fn deposited_by(depositor: Address) -> spec_fn(Escrow) -> bool {
    |e: Escrow| e.depositor == depositor
}

/// The bounty identifier of an escrow.
pub open spec fn id_of() -> spec_fn(Escrow) -> u64 {
    |e: Escrow| e.bounty_id
}

/// The entry under which an escrow is filed by amount.
pub open spec fn amount_entry() -> spec_fn(Escrow) -> IndexEntry {
    |e: Escrow| IndexEntry { key: e.amount, id: e.bounty_id }
}

/// The entry under which an escrow is filed by deadline.
pub open spec fn deadline_entry() -> spec_fn(Escrow) -> IndexEntry {
    |e: Escrow| IndexEntry { key: e.deadline, id: e.bounty_id }
}

/// The bounty identifier of a refund.
pub open spec fn refund_id() -> spec_fn(RefundHistoryEntry) -> u64 {
    |r: RefundHistoryEntry| r.bounty_id
}

/// The sum of the amounts of a listing of escrows.
pub open spec fn total_amount(s: Seq<Escrow>) -> nat
    decreases s.len(),
{
    if s.len() == 0 {
        0
    } else {
        total_amount(s.drop_last()) + s.last().amount as nat
    }
}

/// No two escrows of the listing share a bounty identifier.
pub open spec fn distinct_ids(escrows: Seq<Escrow>) -> bool {
    forall|i: int, j: int|
        0 <= i < j < escrows.len() ==> (#[trigger] escrows[i]).bounty_id != (
        #[trigger] escrows[j]).bounty_id
}

/// The listing holds an escrow with this identifier.
pub open spec fn has_id(escrows: Seq<Escrow>, id: u64) -> bool {
    exists|i: int| 0 <= i < escrows.len() && (#[trigger] escrows[i]).bounty_id == id
}

/// The position in the listing of the escrow with this identifier.
pub open spec fn slot_in(escrows: Seq<Escrow>, id: u64) -> int {
    choose|i: int| 0 <= i < escrows.len() && (#[trigger] escrows[i]).bounty_id == id
}

/// The escrow of the listing with this identifier.
pub open spec fn escrow_in(escrows: Seq<Escrow>, id: u64) -> Escrow {
    escrows[slot_in(escrows, id)]
}

/// The same escrow in another status.
pub open spec fn with_status(e: Escrow, status: EscrowStatus) -> Escrow {
    Escrow { status, ..e }
}

/// What comes of an operation whose own checks gave `plan`, once the host's
/// collaborators have reported `clearance`: a refusal by the ledger comes
/// first, one by the collaborators second, and `event` is published otherwise.
pub open spec fn settle(plan: Result<Transfer, Error>, clearance: Clearance, event: Event) -> Result<
    Event,
    Error,
> {
    match plan {
        Err(e) => Err(e),
        Ok(_) => match clearance {
            Clearance::Cleared => Ok(event),
            Clearance::Unauthorized => Err(Error::Unauthorized),
            Clearance::TransferFailed(code) => Err(Error::TransferFailed(code)),
        },
    }
}

/// The result of an operation that publishes an event where it succeeds.
pub open spec fn published(r: Result<Event, Error>) -> Result<Option<Event>, Error> {
    match r {
        Ok(event) => Ok(Some(event)),
        Err(e) => Err(e),
    }
}

/// A mutating operation together with what the host's collaborators reported
/// for it.
#[derive(Clone, Copy, Debug, PartialEq, Eq, Structural)]
pub enum Operation {
    Init { admin: Address, asset: Address },
    Lock {
        depositor: Address,
        bounty_id: u64,
        amount: u64,
        deadline: u64,
        clearance: Clearance,
    },
    Release { bounty_id: u64, contributor: Address, clearance: Clearance },
    Refund { bounty_id: u64, now: u64, clearance: Clearance },
}

/// A state of the ledger.
pub ghost struct LedgerView {
    /// The configuration, once `init` has run.
    pub config: Option<Config>,
    /// Every escrow ever created, in order of creation.
    pub escrows: Seq<Escrow>,
    /// The identifiers of the released escrows, in order of release.
    pub released: Seq<u64>,
    /// The completed refunds, in order of completion.
    pub refunds: Seq<RefundHistoryEntry>,
}

impl LedgerView {
    /// The state before `init`: nothing configured, nothing recorded.
    pub open spec fn empty() -> LedgerView {
        LedgerView {
            config: None,
            escrows: Seq::empty(),
            released: Seq::empty(),
            refunds: Seq::empty(),
        }
    }

    /// An escrow with this identifier has been created.
    pub open spec fn contains_id(self, id: u64) -> bool {
        has_id(self.escrows, id)
    }

    /// The position, in order of creation, of the escrow with this identifier.
    pub open spec fn slot_of(self, id: u64) -> int {
        slot_in(self.escrows, id)
    }

    /// The escrow with this identifier.
    pub open spec fn escrow(self, id: u64) -> Escrow {
        escrow_in(self.escrows, id)
    }

    /// From an identifier to its escrow.
    pub open spec fn lookup(self) -> spec_fn(u64) -> Escrow {
        |id: u64| self.escrow(id)
    }

    /// From an index entry to the escrow that it files.
    pub open spec fn lookup_entry(self) -> spec_fn(IndexEntry) -> Escrow {
        |e: IndexEntry| self.escrow(e.id)
    }

    /// The escrow with this identifier exists and is in `status`.
    pub open spec fn id_has_status(self, id: u64, status: EscrowStatus) -> bool {
        self.contains_id(id) && self.escrow(id).status == status
    }

    /// The asset that the ledger was configured with.
    pub open spec fn asset(self) -> Address {
        match self.config {
            Some(c) => c.asset,
            None => arbitrary(),
        }
    }

    /// What holds of every state that the operations can reach: identifiers are
    /// unique, amounts are positive, nothing is recorded before `init`, the
    /// released list names exactly the released escrows, each once, and the
    /// refund history holds exactly one entry for each refunded escrow, with
    /// the escrow's depositor and amount and a time past its deadline.
    pub open spec fn valid(self) -> bool {
        &&& distinct_ids(self.escrows)
        &&& forall|i: int| 0 <= i < self.escrows.len() ==> (#[trigger] self.escrows[i]).amount > 0
        &&& self.escrows.len() > 0 ==> self.config is Some
        &&& self.released.no_duplicates()
        &&& forall|id: u64| #[trigger]
            self.released.contains(id) <==> self.id_has_status(id, EscrowStatus::Released)
        &&& forall|i: int, j: int|
            0 <= i < j < self.refunds.len() ==> (#[trigger] self.refunds[i]).bounty_id != (
            #[trigger] self.refunds[j]).bounty_id
        &&& forall|k: int|
            0 <= k < self.refunds.len() ==> self.records_refund(#[trigger] self.refunds[k])
        &&& forall|i: int|
            0 <= i < self.escrows.len() && (#[trigger] self.escrows[i]).status
                == EscrowStatus::Refunded ==> exists|k: int|
                0 <= k < self.refunds.len() && (#[trigger] self.refunds[k]).bounty_id
                    == self.escrows[i].bounty_id
    }

    /// The history entry `r` is the refund of an escrow of this state.
    pub open spec fn records_refund(self, r: RefundHistoryEntry) -> bool {
        &&& self.id_has_status(r.bounty_id, EscrowStatus::Refunded)
        &&& r.depositor == self.escrow(r.bounty_id).depositor
        &&& r.amount == self.escrow(r.bounty_id).amount
        &&& r.refunded_at > self.escrow(r.bounty_id).deadline
    }

    // ----- what the queries read -----

    /// The number of escrows in `status`.
    pub open spec fn count_of(self, status: EscrowStatus) -> nat {
        self.escrows.filter(has_status(status)).len()
    }

    /// The sum of the amounts of the escrows in `status`.
    pub open spec fn total_of(self, status: EscrowStatus) -> nat {
        total_amount(self.escrows.filter(has_status(status)))
    }

    /// `stats` is the summary of this state.
    pub open spec fn has_stats(self, stats: AggregateStats) -> bool {
        &&& stats.count_locked == self.count_of(EscrowStatus::Locked)
        &&& stats.count_released == self.count_of(EscrowStatus::Released)
        &&& stats.count_refunded == self.count_of(EscrowStatus::Refunded)
        &&& stats.total_locked == self.total_of(EscrowStatus::Locked)
        &&& stats.total_released == self.total_of(EscrowStatus::Released)
        &&& stats.total_refunded == self.total_of(EscrowStatus::Refunded)
    }

    /// The identifiers in a status bucket, in the bucket's order: locked escrows
    /// in order of creation, released ones in order of release, refunded ones in
    /// order of refund.
    pub open spec fn ids_with_status(self, status: EscrowStatus) -> Seq<u64> {
        match status {
            EscrowStatus::Locked => self.escrows.filter(has_status(EscrowStatus::Locked)).map_values(
                id_of(),
            ),
            EscrowStatus::Released => self.released,
            EscrowStatus::Refunded => self.refunds.map_values(refund_id()),
        }
    }

    /// The escrows of a status bucket, in the bucket's order.
    pub open spec fn escrows_with_status(self, status: EscrowStatus) -> Seq<Escrow> {
        self.ids_with_status(status).map_values(self.lookup())
    }

    /// The amount index: one entry for each escrow.
    pub open spec fn amount_entries(self) -> Set<IndexEntry> {
        self.escrows.map_values(amount_entry()).to_set()
    }

    /// The deadline index: one entry for each escrow.
    pub open spec fn deadline_entries(self) -> Set<IndexEntry> {
        self.escrows.map_values(deadline_entry()).to_set()
    }

    /// The escrows of any status whose amount lies in `[min, max]`, in
    /// increasing order of amount, ties by identifier.
    pub open spec fn escrows_by_amount(self, min: u64, max: u64) -> Seq<Escrow> {
        ordering_of(self.amount_entries()).filter(key_within(min, max)).map_values(
            self.lookup_entry(),
        )
    }

    /// The escrows of any status whose deadline lies in `[min, max]`, in
    /// increasing order of deadline, ties by identifier.
    pub open spec fn escrows_by_deadline(self, min: u64, max: u64) -> Seq<Escrow> {
        ordering_of(self.deadline_entries()).filter(key_within(min, max)).map_values(
            self.lookup_entry(),
        )
    }

    /// The escrows funded by `depositor`, in order of creation.
    pub open spec fn escrows_by_depositor(self, depositor: Address) -> Seq<Escrow> {
        self.escrows.filter(deposited_by(depositor))
    }

    /// A refund of this escrow would pass the ledger's own checks at time `now`.
    pub open spec fn refund_eligible(self, id: u64, now: u64) -> bool {
        self.id_has_status(id, EscrowStatus::Locked) && now > self.escrow(id).deadline
    }

    // ----- what the operations do -----

    /// The result of `init`: refused where the ledger is configured already.
    pub open spec fn init_result(self) -> Result<(), Error> {
        if self.config is Some {
            Err(Error::AlreadyInitialized)
        } else {
            Ok(())
        }
    }

    /// The state after `init`: configured, if it was not yet.
    pub open spec fn after_init(self, admin: Address, asset: Address) -> LedgerView {
        if self.config is Some {
            self
        } else {
            LedgerView { config: Some(Config { admin, asset }), ..self }
        }
    }

    /// The ledger's own checks on a lock, and the deposit that the host has to
    /// carry out where they pass.
    pub open spec fn plan_lock(self, depositor: Address, bounty_id: u64, amount: u64) -> Result<
        Transfer,
        Error,
    > {
        if self.config is None {
            Err(Error::NotInitialized)
        } else if self.contains_id(bounty_id) {
            Err(Error::AlreadyExists)
        } else if amount <= 0 {
            Err(Error::InvalidAmount)
        } else {
            Ok(Transfer { asset: self.asset(), kind: TransferKind::Deposit, party: depositor, amount })
        }
    }

    /// The result of a lock.
    pub open spec fn lock_result(
        self,
        depositor: Address,
        bounty_id: u64,
        amount: u64,
        clearance: Clearance,
    ) -> Result<Event, Error> {
        settle(
            self.plan_lock(depositor, bounty_id, amount),
            clearance,
            Event::Locked { bounty_id, amount, depositor },
        )
    }

    /// The state after a lock: one more escrow, `Locked`, where the lock
    /// succeeds; the same state where it does not.
    pub open spec fn after_lock(
        self,
        depositor: Address,
        bounty_id: u64,
        amount: u64,
        deadline: u64,
        clearance: Clearance,
    ) -> LedgerView {
        if self.lock_result(depositor, bounty_id, amount, clearance) is Ok {
            LedgerView {
                escrows: self.escrows.push(
                    Escrow { bounty_id, depositor, amount, deadline, status: EscrowStatus::Locked },
                ),
                ..self
            }
        } else {
            self
        }
    }

    /// The ledger's own checks on a release, and the payout that the host has
    /// to carry out where they pass.
    pub open spec fn plan_release(self, bounty_id: u64, contributor: Address) -> Result<
        Transfer,
        Error,
    > {
        if !self.contains_id(bounty_id) {
            Err(Error::NotFound)
        } else if self.escrow(bounty_id).status != EscrowStatus::Locked {
            Err(Error::InvalidStatus)
        } else {
            Ok(
                Transfer {
                    asset: self.asset(),
                    kind: TransferKind::Payout,
                    party: contributor,
                    amount: self.escrow(bounty_id).amount,
                },
            )
        }
    }

    /// The result of a release.
    pub open spec fn release_result(self, bounty_id: u64, contributor: Address, clearance: Clearance)
        -> Result<Event, Error> {
        settle(
            self.plan_release(bounty_id, contributor),
            clearance,
            Event::Released { bounty_id, amount: self.escrow(bounty_id).amount, contributor },
        )
    }

    /// The state after a release: the escrow is `Released` and its identifier
    /// is the last of the released list, where the release succeeds; the same
    /// state where it does not.
    pub open spec fn after_release(self, bounty_id: u64, contributor: Address, clearance: Clearance)
        -> LedgerView {
        if self.release_result(bounty_id, contributor, clearance) is Ok {
            LedgerView {
                escrows: self.escrows.update(
                    self.slot_of(bounty_id),
                    with_status(self.escrow(bounty_id), EscrowStatus::Released),
                ),
                released: self.released.push(bounty_id),
                ..self
            }
        } else {
            self
        }
    }

    /// The ledger's own checks on a refund at time `now`, and the payout that
    /// the host has to carry out where they pass.
    pub open spec fn plan_refund(self, bounty_id: u64, now: u64) -> Result<Transfer, Error> {
        if !self.contains_id(bounty_id) {
            Err(Error::NotFound)
        } else if self.escrow(bounty_id).status != EscrowStatus::Locked {
            Err(Error::InvalidStatus)
        } else if now <= self.escrow(bounty_id).deadline {
            Err(Error::DeadlineNotReached)
        } else {
            Ok(
                Transfer {
                    asset: self.asset(),
                    kind: TransferKind::Payout,
                    party: self.escrow(bounty_id).depositor,
                    amount: self.escrow(bounty_id).amount,
                },
            )
        }
    }

    /// The result of a refund.
    pub open spec fn refund_result(self, bounty_id: u64, now: u64, clearance: Clearance) -> Result<
        Event,
        Error,
    > {
        settle(
            self.plan_refund(bounty_id, now),
            clearance,
            Event::Refunded {
                bounty_id,
                amount: self.escrow(bounty_id).amount,
                depositor: self.escrow(bounty_id).depositor,
            },
        )
    }

    /// The state after a refund: the escrow is `Refunded` and the history has
    /// one more entry, where the refund succeeds; the same state where it does
    /// not.
    pub open spec fn after_refund(self, bounty_id: u64, now: u64, clearance: Clearance)
        -> LedgerView {
        if self.refund_result(bounty_id, now, clearance) is Ok {
            LedgerView {
                escrows: self.escrows.update(
                    self.slot_of(bounty_id),
                    with_status(self.escrow(bounty_id), EscrowStatus::Refunded),
                ),
                refunds: self.refunds.push(
                    RefundHistoryEntry {
                        bounty_id,
                        depositor: self.escrow(bounty_id).depositor,
                        amount: self.escrow(bounty_id).amount,
                        refunded_at: now,
                    },
                ),
                ..self
            }
        } else {
            self
        }
    }

    /// The result of an operation in this state: the event to publish, if the
    /// operation has one, or why it is refused.
    pub open spec fn outcome(self, op: Operation) -> Result<Option<Event>, Error> {
        match op {
            Operation::Init { admin, asset } => match self.init_result() {
                Ok(_) => Ok(None),
                Err(e) => Err(e),
            },
            Operation::Lock { depositor, bounty_id, amount, deadline, clearance } => published(
                self.lock_result(depositor, bounty_id, amount, clearance),
            ),
            Operation::Release { bounty_id, contributor, clearance } => published(
                self.release_result(bounty_id, contributor, clearance),
            ),
            Operation::Refund { bounty_id, now, clearance } => published(
                self.refund_result(bounty_id, now, clearance),
            ),
        }
    }

    /// Whether an operation succeeds in this state.
    pub open spec fn succeeds(self, op: Operation) -> bool {
        self.outcome(op) is Ok
    }

    /// The state after an operation.
    pub open spec fn step(self, op: Operation) -> LedgerView {
        match op {
            Operation::Init { admin, asset } => self.after_init(admin, asset),
            Operation::Lock { depositor, bounty_id, amount, deadline, clearance } => self.after_lock(
                depositor,
                bounty_id,
                amount,
                deadline,
                clearance,
            ),
            Operation::Release { bounty_id, contributor, clearance } => self.after_release(
                bounty_id,
                contributor,
                clearance,
            ),
            Operation::Refund { bounty_id, now, clearance } => self.after_refund(
                bounty_id,
                now,
                clearance,
            ),
        }
    }

    /// The state after a sequence of operations, each applied to what the
    /// earlier ones left.
    pub open spec fn run(self, ops: Seq<Operation>) -> LedgerView
        decreases ops.len(),
    {
        if ops.len() == 0 {
            self
        } else {
            self.run(ops.drop_last()).step(ops.last())
        }
    }

    /// How many of the operations are locks that succeed in the state that
    /// they meet.
    pub open spec fn successful_locks(self, ops: Seq<Operation>) -> nat
        decreases ops.len(),
    {
        if ops.len() == 0 {
            0
        } else {
            self.successful_locks(ops.drop_last()) + (if ops.last() is Lock && self.run(
                ops.drop_last(),
            ).succeeds(ops.last()) {
                1nat
            } else {
                0nat
            })
        }
    }

    /// Some sequence of operations leads from the empty state to this one.
    pub open spec fn reachable(self) -> bool {
        exists|ops: Seq<Operation>| LedgerView::empty().run(ops) == self
    }
}

} // verus!
