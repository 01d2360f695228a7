//! An escrow ledger: value is locked against a bounty identifier until it is
//! either released to a contributor or, once a deadline has elapsed, refunded
//! to the depositor.
//!
//! The crate holds the state-and-index engine. Moving value, proving who a
//! caller is, publishing events and persisting the ledger are the host's
//! business: every mutating operation takes what the host's collaborators
//! reported and hands back what the host has to do next.
//!
//! - `types`: the plain data.
//! - `model`: the mathematical model of a ledger state and of each operation.
//! - `ledger`: the ledger itself, whose operations are proved against the model.
//! - `laws`: what holds in every state that the operations can reach.
//! - `index`, `paging`: the ordered index and pagination that the queries use.
//! - `seqs`, `facts`, `validity`: the supporting proofs.

pub mod types;
pub mod paging;
pub mod seqs;
pub mod index;
pub mod model;
pub mod facts;
pub mod validity;
pub mod ledger;
pub mod laws;

pub use crate::ledger::EscrowLedger;
pub use crate::model::Operation;
pub use crate::types::{
    Address, AddressKind, AggregateStats, Clearance, Config, Error, Escrow, EscrowStatus, Event,
    RefundHistoryEntry, Transfer, TransferKind,
};
