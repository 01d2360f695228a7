//! Plain data: identities, escrow records, statistics, errors, and the
//! instructions and notices exchanged with the host.

use vstd::prelude::*;

verus! {

/// Whether an identity names an account or a contract.
#[derive(Clone, Copy, Debug, PartialEq, Eq, Hash, Structural)]
pub enum AddressKind {
    Account,
    Contract,
}

/// Identity of a party: a kind and a 256-bit key, held as two halves.
#[derive(Clone, Copy, Debug, PartialEq, Eq, Hash, Structural)]
pub struct Address {
    pub kind: AddressKind,
    pub hi: u128,
    pub lo: u128,
}

/// Lifecycle of an escrow. `Locked` is initial; the other two are terminal.
#[derive(Clone, Copy, Debug, PartialEq, Eq, Structural)]
pub enum EscrowStatus {
    Locked,
    Released,
    Refunded,
}

/// One escrow record. Everything but `status` is fixed at creation.
#[derive(Clone, Copy, Debug, PartialEq, Eq, Structural)]
pub struct Escrow {
    pub bounty_id: u64,
    pub depositor: Address,
    pub amount: u64,
    pub deadline: u64,
    pub status: EscrowStatus,
}

/// Per-status counts and sums over all escrows.
#[derive(Clone, Copy, Debug, PartialEq, Eq, Structural)]
pub struct AggregateStats {
    pub total_locked: u128,
    pub total_released: u128,
    pub total_refunded: u128,
    pub count_locked: u64,
    pub count_released: u64,
    pub count_refunded: u64,
}

/// One completed refund.
#[derive(Clone, Copy, Debug, PartialEq, Eq, Structural)]
pub struct RefundHistoryEntry {
    pub bounty_id: u64,
    pub depositor: Address,
    pub amount: u64,
    pub refunded_at: u64,
}

/// The administrator and the asset fixed by `init`.
#[derive(Clone, Copy, Debug, PartialEq, Eq, Structural)]
pub struct Config {
    pub admin: Address,
    pub asset: Address,
}

/// Why an operation was refused.
#[derive(Clone, Copy, Debug, PartialEq, Eq, Structural)]
pub enum Error {
    /// A lock was attempted before `init`.
    NotInitialized,
    /// `init` was called a second time.
    AlreadyInitialized,
    /// A lock named a bounty identifier that is already present.
    AlreadyExists,
    /// The bounty identifier is unknown.
    NotFound,
    /// The amount is not strictly positive.
    InvalidAmount,
    /// The escrow is not `Locked`.
    InvalidStatus,
    /// A refund was attempted while the current time had not passed the deadline.
    DeadlineNotReached,
    /// The caller did not prove the identity that the operation asks for.
    Unauthorized,
    /// The transfer collaborator failed; its code is passed through unchanged.
    TransferFailed(u32),
}

/// What the host's collaborators reported for one operation: whether the party
/// that has to consent did, and whether the value was moved.
#[derive(Clone, Copy, Debug, PartialEq, Eq, Structural)]
pub enum Clearance {
    /// The call was authorized and the transfer was carried out.
    Cleared,
    /// The authorization collaborator refused the caller.
    Unauthorized,
    /// The transfer collaborator failed with this code.
    TransferFailed(u32),
}

/// Direction of a movement of value relative to the ledger's custody.
#[derive(Clone, Copy, Debug, PartialEq, Eq, Structural)]
pub enum TransferKind {
    /// From `party` into custody.
    Deposit,
    /// Out of custody to `party`.
    Payout,
}

/// A movement of value that the host must carry out for an operation.
#[derive(Clone, Copy, Debug, PartialEq, Eq, Structural)]
pub struct Transfer {
    pub asset: Address,
    pub kind: TransferKind,
    pub party: Address,
    pub amount: u64,
}

/// The notice that the host publishes after a successful operation.
#[derive(Clone, Copy, Debug, PartialEq, Eq, Structural)]
pub enum Event {
    Locked { bounty_id: u64, amount: u64, depositor: Address },
    Released { bounty_id: u64, amount: u64, contributor: Address },
    Refunded { bounty_id: u64, amount: u64, depositor: Address },
}

} // verus!
