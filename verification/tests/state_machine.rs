//! The transitions: what each operation returns, what it changes, and what
//! each refusal leaves alone.

use bounty_escrow::{
    Address, AddressKind, AggregateStats, Clearance, Config, Error, Escrow, EscrowLedger,
    EscrowStatus, Event, Operation, RefundHistoryEntry, Transfer, TransferKind,
};

const T: u64 = 1_700_000_000;

fn party(n: u128) -> Address {
    Address { kind: AddressKind::Account, hi: 0, lo: n }
}

fn asset() -> Address {
    Address { kind: AddressKind::Contract, hi: 7, lo: 7 }
}

fn ready() -> EscrowLedger {
    let mut ledger = EscrowLedger::new();
    ledger.init(party(1), asset()).unwrap();
    ledger
}

/// Everything a caller can read off the ledger at time `now`.
#[derive(Debug, PartialEq)]
struct Snapshot {
    config: Option<Config>,
    stats: AggregateStats,
    count: u64,
    by_status: Vec<Vec<Escrow>>,
    ids_by_status: Vec<Vec<u64>>,
    by_amount: Vec<Escrow>,
    by_deadline: Vec<Escrow>,
    by_depositor: Vec<Vec<Escrow>>,
    history: Vec<RefundHistoryEntry>,
    eligibility: Vec<Result<bool, Error>>,
}

fn snapshot(ledger: &EscrowLedger, now: u64) -> Snapshot {
    let statuses = [EscrowStatus::Locked, EscrowStatus::Released, EscrowStatus::Refunded];
    Snapshot {
        config: ledger.config(),
        stats: ledger.get_aggregate_stats(),
        count: ledger.get_escrow_count(),
        by_status: statuses.iter().map(|s| ledger.query_escrows_by_status(*s, 0, u64::MAX)).collect(),
        ids_by_status: statuses
            .iter()
            .map(|s| ledger.get_escrow_ids_by_status(*s, 0, u64::MAX))
            .collect(),
        by_amount: ledger.query_escrows_by_amount(0, u64::MAX, 0, u64::MAX),
        by_deadline: ledger.query_escrows_by_deadline(0, u64::MAX, 0, u64::MAX),
        by_depositor: (1..6).map(|n| ledger.query_escrows_by_depositor(party(n), 0, u64::MAX)).collect(),
        history: ledger.get_refund_history(),
        eligibility: (0..6).map(|id| ledger.get_refund_eligibility(id, now)).collect(),
    }
}

#[test]
fn a_new_ledger_is_empty_and_not_configured() {
    let ledger = EscrowLedger::new();
    assert_eq!(ledger.config(), None);
    assert_eq!(ledger.get_escrow_count(), 0);
    assert_eq!(
        ledger.get_aggregate_stats(),
        AggregateStats {
            total_locked: 0,
            total_released: 0,
            total_refunded: 0,
            count_locked: 0,
            count_released: 0,
            count_refunded: 0,
        }
    );
    assert!(ledger.query_escrows_by_status(EscrowStatus::Locked, 0, 10).is_empty());
    assert!(ledger.query_escrows_by_amount(0, u64::MAX, 0, 10).is_empty());
    assert!(ledger.query_escrows_by_deadline(0, u64::MAX, 0, 10).is_empty());
    assert!(ledger.query_escrows_by_depositor(party(2), 0, 10).is_empty());
    assert!(ledger.get_escrow_ids_by_status(EscrowStatus::Refunded, 0, 10).is_empty());
    assert!(ledger.get_refund_history().is_empty());
    assert_eq!(ledger.get_refund_eligibility(1, T), Err(Error::NotFound));
}

#[test]
fn init_fixes_the_configuration_once() {
    let mut ledger = EscrowLedger::new();
    assert_eq!(ledger.init(party(1), asset()), Ok(()));
    assert_eq!(ledger.config(), Some(Config { admin: party(1), asset: asset() }));
    assert_eq!(ledger.init(party(9), party(8)), Err(Error::AlreadyInitialized));
    assert_eq!(ledger.config(), Some(Config { admin: party(1), asset: asset() }));
}

#[test]
fn lock_before_init_is_not_initialized() {
    let mut ledger = EscrowLedger::new();
    assert_eq!(ledger.plan_lock(party(2), 1, 500), Err(Error::NotInitialized));
    assert_eq!(
        ledger.lock_funds(party(2), 1, 500, T + 1000, Clearance::Cleared),
        Err(Error::NotInitialized)
    );
    assert_eq!(ledger.get_escrow_count(), 0);
    // even an amount of zero is reported as a missing setup first
    assert_eq!(
        ledger.lock_funds(party(2), 1, 0, T + 1000, Clearance::Cleared),
        Err(Error::NotInitialized)
    );
}

#[test]
fn lock_of_zero_is_an_invalid_amount() {
    let mut ledger = ready();
    assert_eq!(ledger.plan_lock(party(2), 1, 0), Err(Error::InvalidAmount));
    assert_eq!(
        ledger.lock_funds(party(2), 1, 0, T + 1000, Clearance::Cleared),
        Err(Error::InvalidAmount)
    );
    assert_eq!(ledger.get_escrow_count(), 0);
    // the smallest positive amount is accepted
    assert_eq!(
        ledger.lock_funds(party(2), 1, 1, T + 1000, Clearance::Cleared),
        Ok(Event::Locked { bounty_id: 1, amount: 1, depositor: party(2) })
    );
}

#[test]
fn lock_of_a_known_identifier_already_exists() {
    let mut ledger = ready();
    ledger.lock_funds(party(2), 1, 500, T + 1000, Clearance::Cleared).unwrap();
    assert_eq!(ledger.plan_lock(party(3), 1, 700), Err(Error::AlreadyExists));
    assert_eq!(
        ledger.lock_funds(party(3), 1, 700, T + 2000, Clearance::Cleared),
        Err(Error::AlreadyExists)
    );
    // a known identifier is reported before a zero amount
    assert_eq!(
        ledger.lock_funds(party(3), 1, 0, T + 2000, Clearance::Cleared),
        Err(Error::AlreadyExists)
    );
    // an identifier stays taken after its escrow has ended
    ledger.release_funds(1, party(4), Clearance::Cleared).unwrap();
    assert_eq!(
        ledger.lock_funds(party(2), 1, 500, T + 1000, Clearance::Cleared),
        Err(Error::AlreadyExists)
    );
    assert_eq!(ledger.get_escrow_count(), 1);
}

#[test]
fn lock_without_consent_is_unauthorized() {
    let mut ledger = ready();
    assert_eq!(
        ledger.lock_funds(party(2), 1, 500, T + 1000, Clearance::Unauthorized),
        Err(Error::Unauthorized)
    );
    assert_eq!(ledger.get_escrow_count(), 0);
    // the ledger's own refusal comes first
    assert_eq!(
        ledger.lock_funds(party(2), 1, 0, T + 1000, Clearance::Unauthorized),
        Err(Error::InvalidAmount)
    );
}

#[test]
fn a_failed_transfer_is_passed_through_unchanged() {
    let mut ledger = ready();
    assert_eq!(
        ledger.lock_funds(party(2), 1, 500, T + 1000, Clearance::TransferFailed(10)),
        Err(Error::TransferFailed(10))
    );
    assert_eq!(ledger.get_escrow_count(), 0);
    ledger.lock_funds(party(2), 1, 500, T + 1000, Clearance::Cleared).unwrap();
    assert_eq!(
        ledger.release_funds(1, party(3), Clearance::TransferFailed(4_000_000_000)),
        Err(Error::TransferFailed(4_000_000_000))
    );
    assert_eq!(
        ledger.refund(1, T + 1001, Clearance::TransferFailed(0)),
        Err(Error::TransferFailed(0))
    );
    assert_eq!(ledger.release_funds(1, party(3), Clearance::Unauthorized), Err(Error::Unauthorized));
    assert_eq!(ledger.refund(1, T + 1001, Clearance::Unauthorized), Err(Error::Unauthorized));
    // still locked, and still open to both outcomes
    assert_eq!(ledger.get_escrow_ids_by_status(EscrowStatus::Locked, 0, 10), vec![1]);
    assert_eq!(ledger.get_aggregate_stats().total_locked, 500);
    assert_eq!(ledger.get_refund_eligibility(1, T + 1001), Ok(true));
}

#[test]
fn lock_records_the_escrow_and_reports_the_event() {
    let mut ledger = ready();
    assert_eq!(
        ledger.plan_lock(party(2), 7, 500),
        Ok(Transfer { asset: asset(), kind: TransferKind::Deposit, party: party(2), amount: 500 })
    );
    assert_eq!(
        ledger.lock_funds(party(2), 7, 500, T + 1000, Clearance::Cleared),
        Ok(Event::Locked { bounty_id: 7, amount: 500, depositor: party(2) })
    );
    assert_eq!(
        ledger.query_escrows_by_status(EscrowStatus::Locked, 0, 10),
        vec![Escrow {
            bounty_id: 7,
            depositor: party(2),
            amount: 500,
            deadline: T + 1000,
            status: EscrowStatus::Locked,
        }]
    );
}

#[test]
fn lock_accepts_a_deadline_in_the_past() {
    let mut ledger = ready();
    assert!(ledger.lock_funds(party(2), 1, 500, 0, Clearance::Cleared).is_ok());
    assert_eq!(ledger.get_refund_eligibility(1, 0), Ok(false));
    assert_eq!(ledger.get_refund_eligibility(1, 1), Ok(true));
}

#[test]
fn release_pays_the_contributor_whatever_the_deadline() {
    let mut ledger = ready();
    ledger.lock_funds(party(2), 1, 500, T + 1000, Clearance::Cleared).unwrap();
    ledger.lock_funds(party(2), 2, 600, T + 1000, Clearance::Cleared).unwrap();
    assert_eq!(
        ledger.plan_release(1, party(3)),
        Ok(Transfer { asset: asset(), kind: TransferKind::Payout, party: party(3), amount: 500 })
    );
    assert_eq!(
        ledger.release_funds(1, party(3), Clearance::Cleared),
        Ok(Event::Released { bounty_id: 1, amount: 500, contributor: party(3) })
    );
    // the deadline plays no part: long after it a release still goes through
    assert_eq!(ledger.get_refund_eligibility(2, T + 5000), Ok(true));
    assert_eq!(
        ledger.release_funds(2, party(3), Clearance::Cleared),
        Ok(Event::Released { bounty_id: 2, amount: 600, contributor: party(3) })
    );
    let released = ledger.query_escrows_by_status(EscrowStatus::Released, 0, 10);
    assert_eq!(released.len(), 2);
    // only the status has changed
    assert_eq!(
        released[0],
        Escrow {
            bounty_id: 1,
            depositor: party(2),
            amount: 500,
            deadline: T + 1000,
            status: EscrowStatus::Released,
        }
    );
}

#[test]
fn release_of_an_unknown_identifier_is_not_found() {
    let mut ledger = ready();
    assert_eq!(ledger.plan_release(1, party(3)), Err(Error::NotFound));
    assert_eq!(ledger.release_funds(1, party(3), Clearance::Cleared), Err(Error::NotFound));
    // before init nothing is known either
    let mut fresh = EscrowLedger::new();
    assert_eq!(fresh.release_funds(1, party(3), Clearance::Cleared), Err(Error::NotFound));
    assert_eq!(fresh.refund(1, T, Clearance::Cleared), Err(Error::NotFound));
}

#[test]
fn release_twice_is_an_invalid_status() {
    let mut ledger = ready();
    ledger.lock_funds(party(2), 1, 500, T + 1000, Clearance::Cleared).unwrap();
    ledger.release_funds(1, party(3), Clearance::Cleared).unwrap();
    assert_eq!(ledger.plan_release(1, party(3)), Err(Error::InvalidStatus));
    assert_eq!(ledger.release_funds(1, party(3), Clearance::Cleared), Err(Error::InvalidStatus));
    assert_eq!(ledger.get_aggregate_stats().total_released, 500);
    assert_eq!(ledger.get_aggregate_stats().count_released, 1);
}

#[test]
fn release_after_refund_is_an_invalid_status() {
    let mut ledger = ready();
    ledger.lock_funds(party(2), 1, 500, T + 1000, Clearance::Cleared).unwrap();
    ledger.refund(1, T + 1001, Clearance::Cleared).unwrap();
    assert_eq!(ledger.release_funds(1, party(3), Clearance::Cleared), Err(Error::InvalidStatus));
    assert_eq!(ledger.get_aggregate_stats().count_released, 0);
    assert_eq!(ledger.get_aggregate_stats().count_refunded, 1);
}

#[test]
fn refund_needs_the_deadline_to_have_passed() {
    let mut ledger = ready();
    ledger.lock_funds(party(2), 1, 500, T + 1000, Clearance::Cleared).unwrap();
    assert_eq!(ledger.plan_refund(1, T), Err(Error::DeadlineNotReached));
    assert_eq!(ledger.refund(1, T, Clearance::Cleared), Err(Error::DeadlineNotReached));
    // at the deadline itself the time has not passed it
    assert_eq!(ledger.plan_refund(1, T + 1000), Err(Error::DeadlineNotReached));
    assert_eq!(ledger.refund(1, T + 1000, Clearance::Cleared), Err(Error::DeadlineNotReached));
    // whatever the collaborators report
    assert_eq!(
        ledger.refund(1, T + 1000, Clearance::TransferFailed(3)),
        Err(Error::DeadlineNotReached)
    );
    assert_eq!(ledger.refund(1, T + 1000, Clearance::Unauthorized), Err(Error::DeadlineNotReached));
    assert!(ledger.get_refund_history().is_empty());
    assert_eq!(ledger.get_aggregate_stats().count_locked, 1);
    assert_eq!(
        ledger.plan_refund(1, T + 1001),
        Ok(Transfer { asset: asset(), kind: TransferKind::Payout, party: party(2), amount: 500 })
    );
    assert_eq!(
        ledger.refund(1, T + 1001, Clearance::Cleared),
        Ok(Event::Refunded { bounty_id: 1, amount: 500, depositor: party(2) })
    );
}

#[test]
fn refund_of_an_ended_escrow_is_an_invalid_status() {
    let mut ledger = ready();
    ledger.lock_funds(party(2), 1, 500, T + 1000, Clearance::Cleared).unwrap();
    ledger.lock_funds(party(2), 2, 600, T + 1000, Clearance::Cleared).unwrap();
    ledger.release_funds(1, party(3), Clearance::Cleared).unwrap();
    ledger.refund(2, T + 1001, Clearance::Cleared).unwrap();
    assert_eq!(ledger.refund(1, T + 1001, Clearance::Cleared), Err(Error::InvalidStatus));
    assert_eq!(ledger.refund(2, T + 1001, Clearance::Cleared), Err(Error::InvalidStatus));
    // the status is looked at before the deadline
    assert_eq!(ledger.refund(1, T, Clearance::Cleared), Err(Error::InvalidStatus));
    assert_eq!(ledger.plan_refund(2, T), Err(Error::InvalidStatus));
    assert_eq!(ledger.get_refund_history().len(), 1);
}

#[test]
fn refund_of_an_unknown_identifier_is_not_found() {
    let mut ledger = ready();
    assert_eq!(ledger.plan_refund(5, T), Err(Error::NotFound));
    assert_eq!(ledger.refund(5, T, Clearance::Cleared), Err(Error::NotFound));
    assert_eq!(ledger.refund(5, u64::MAX, Clearance::Cleared), Err(Error::NotFound));
}

#[test]
fn refund_history_grows_in_order_of_completion() {
    let mut ledger = ready();
    ledger.lock_funds(party(2), 1, 100, T + 10, Clearance::Cleared).unwrap();
    ledger.lock_funds(party(3), 2, 200, T + 10, Clearance::Cleared).unwrap();
    ledger.lock_funds(party(2), 3, 300, T + 10, Clearance::Cleared).unwrap();
    ledger.refund(3, T + 11, Clearance::Cleared).unwrap();
    ledger.release_funds(2, party(4), Clearance::Cleared).unwrap();
    ledger.refund(1, T + 20, Clearance::Cleared).unwrap();
    assert_eq!(
        ledger.get_refund_history(),
        vec![
            RefundHistoryEntry { bounty_id: 3, depositor: party(2), amount: 300, refunded_at: T + 11 },
            RefundHistoryEntry { bounty_id: 1, depositor: party(2), amount: 100, refunded_at: T + 20 },
        ]
    );
    assert_eq!(ledger.get_escrow_ids_by_status(EscrowStatus::Refunded, 0, 10), vec![3, 1]);
}

#[test]
fn eligibility_follows_the_lifecycle() {
    let mut ledger = ready();
    assert_eq!(ledger.get_refund_eligibility(1, T), Err(Error::NotFound));
    ledger.lock_funds(party(2), 1, 500, T + 1000, Clearance::Cleared).unwrap();
    ledger.lock_funds(party(2), 2, 500, T + 1000, Clearance::Cleared).unwrap();
    assert_eq!(ledger.get_refund_eligibility(1, T), Ok(false));
    assert_eq!(ledger.get_refund_eligibility(1, T + 1000), Ok(false));
    assert_eq!(ledger.get_refund_eligibility(1, T + 1001), Ok(true));
    assert_eq!(ledger.get_refund_eligibility(1, u64::MAX), Ok(true));
    ledger.release_funds(1, party(3), Clearance::Cleared).unwrap();
    assert_eq!(ledger.get_refund_eligibility(1, T + 1001), Ok(false));
    ledger.refund(2, T + 1001, Clearance::Cleared).unwrap();
    assert_eq!(ledger.get_refund_eligibility(2, T + 1001), Ok(false));
    assert_eq!(ledger.get_refund_eligibility(3, T + 1001), Err(Error::NotFound));
}

#[test]
fn a_deadline_at_the_end_of_time_can_never_be_refunded() {
    let mut ledger = ready();
    ledger.lock_funds(party(2), 1, 500, u64::MAX, Clearance::Cleared).unwrap();
    assert_eq!(ledger.get_refund_eligibility(1, u64::MAX), Ok(false));
    assert_eq!(ledger.refund(1, u64::MAX, Clearance::Cleared), Err(Error::DeadlineNotReached));
}

#[test]
fn scenario_lock_then_release() {
    let mut ledger = ready();
    ledger.lock_funds(party(2), 1, 500, T + 1000, Clearance::Cleared).unwrap();
    let stats = ledger.get_aggregate_stats();
    assert_eq!(stats.total_locked, 500);
    assert_eq!(stats.count_locked, 1);
    ledger.release_funds(1, party(3), Clearance::Cleared).unwrap();
    let stats = ledger.get_aggregate_stats();
    assert_eq!(stats.total_released, 500);
    assert_eq!(stats.total_locked, 0);
    assert_eq!(ledger.get_escrow_count(), 1);
}

#[test]
fn scenario_lock_then_refund_after_the_deadline() {
    let mut ledger = ready();
    ledger.lock_funds(party(2), 2, 900, T + 500, Clearance::Cleared).unwrap();
    ledger.refund(2, T + 501, Clearance::Cleared).unwrap();
    let stats = ledger.get_aggregate_stats();
    assert_eq!(stats.count_refunded, 1);
    assert_eq!(stats.total_refunded, 900);
    let history = ledger.get_refund_history();
    assert_eq!(history.len(), 1);
    assert_eq!(
        history[0],
        RefundHistoryEntry { bounty_id: 2, depositor: party(2), amount: 900, refunded_at: T + 501 }
    );
}

#[test]
fn every_refusal_leaves_every_reading_as_it_was() {
    let mut ledger = ready();
    ledger.lock_funds(party(2), 1, 500, T + 1000, Clearance::Cleared).unwrap();
    ledger.lock_funds(party(3), 2, 300, T + 10, Clearance::Cleared).unwrap();
    ledger.lock_funds(party(2), 3, 300, T + 2000, Clearance::Cleared).unwrap();
    ledger.release_funds(1, party(4), Clearance::Cleared).unwrap();
    ledger.refund(2, T + 11, Clearance::Cleared).unwrap();
    let now = T + 100;
    let before = snapshot(&ledger, now);

    assert_eq!(ledger.init(party(9), party(9)), Err(Error::AlreadyInitialized));
    assert_eq!(snapshot(&ledger, now), before);
    // a second lock of the same identifier
    assert_eq!(
        ledger.lock_funds(party(5), 3, 800, T + 9, Clearance::Cleared),
        Err(Error::AlreadyExists)
    );
    assert_eq!(snapshot(&ledger, now), before);
    assert_eq!(
        ledger.lock_funds(party(5), 4, 0, T + 9, Clearance::Cleared),
        Err(Error::InvalidAmount)
    );
    assert_eq!(snapshot(&ledger, now), before);
    assert_eq!(
        ledger.lock_funds(party(5), 4, 800, T + 9, Clearance::Unauthorized),
        Err(Error::Unauthorized)
    );
    assert_eq!(snapshot(&ledger, now), before);
    assert_eq!(
        ledger.lock_funds(party(5), 4, 800, T + 9, Clearance::TransferFailed(10)),
        Err(Error::TransferFailed(10))
    );
    assert_eq!(snapshot(&ledger, now), before);
    // a release of a refunded identifier
    assert_eq!(ledger.release_funds(2, party(4), Clearance::Cleared), Err(Error::InvalidStatus));
    assert_eq!(snapshot(&ledger, now), before);
    assert_eq!(ledger.release_funds(1, party(4), Clearance::Cleared), Err(Error::InvalidStatus));
    assert_eq!(snapshot(&ledger, now), before);
    assert_eq!(ledger.release_funds(8, party(4), Clearance::Cleared), Err(Error::NotFound));
    assert_eq!(snapshot(&ledger, now), before);
    assert_eq!(ledger.release_funds(3, party(4), Clearance::TransferFailed(1)), Err(Error::TransferFailed(1)));
    assert_eq!(snapshot(&ledger, now), before);
    assert_eq!(ledger.refund(3, now, Clearance::Cleared), Err(Error::DeadlineNotReached));
    assert_eq!(snapshot(&ledger, now), before);
    assert_eq!(ledger.refund(1, T + 5000, Clearance::Cleared), Err(Error::InvalidStatus));
    assert_eq!(snapshot(&ledger, now), before);
    assert_eq!(ledger.refund(8, T + 5000, Clearance::Cleared), Err(Error::NotFound));
    assert_eq!(snapshot(&ledger, now), before);
    assert_eq!(ledger.refund(3, T + 5000, Clearance::TransferFailed(2)), Err(Error::TransferFailed(2)));
    assert_eq!(snapshot(&ledger, now), before);
}

#[test]
fn an_escrow_keeps_everything_but_its_status() {
    let mut ledger = ready();
    ledger.lock_funds(party(2), 1, 500, T + 1000, Clearance::Cleared).unwrap();
    ledger.lock_funds(party(3), 2, 300, T + 10, Clearance::Cleared).unwrap();
    let created = ledger.query_escrows_by_amount(0, u64::MAX, 0, 10);
    ledger.lock_funds(party(4), 3, 400, T + 10, Clearance::Cleared).unwrap();
    ledger.release_funds(1, party(5), Clearance::Cleared).unwrap();
    ledger.refund(2, T + 11, Clearance::Cleared).unwrap();
    ledger.release_funds(3, party(2), Clearance::Cleared).unwrap();
    let ended = ledger.query_escrows_by_amount(0, u64::MAX, 0, 10);
    assert_eq!(
        ended,
        vec![
            Escrow { status: EscrowStatus::Refunded, ..created[0] },
            Escrow {
                bounty_id: 3,
                depositor: party(4),
                amount: 400,
                deadline: T + 10,
                status: EscrowStatus::Released,
            },
            Escrow { status: EscrowStatus::Released, ..created[1] },
        ]
    );
}

#[test]
fn queries_change_nothing() {
    let mut ledger = ready();
    ledger.lock_funds(party(2), 1, 500, T + 1000, Clearance::Cleared).unwrap();
    ledger.lock_funds(party(3), 2, 300, T + 10, Clearance::Cleared).unwrap();
    let first = snapshot(&ledger, T);
    let second = snapshot(&ledger, T);
    assert_eq!(first, second);
    assert_eq!(ledger.plan_lock(party(2), 9, 5).map(|t| t.amount), Ok(5));
    assert_eq!(ledger.plan_release(1, party(4)).map(|t| t.amount), Ok(500));
    assert_eq!(ledger.plan_refund(2, T + 11).map(|t| t.amount), Ok(300));
    assert_eq!(snapshot(&ledger, T), first);
}

#[test]
fn apply_is_the_operation_it_names() {
    let mut by_name = EscrowLedger::new();
    let mut by_value = EscrowLedger::new();

    assert_eq!(by_name.init(party(1), asset()), Ok(()));
    assert_eq!(by_value.apply(Operation::Init { admin: party(1), asset: asset() }), Ok(None));
    assert_eq!(
        by_value.apply(Operation::Init { admin: party(1), asset: asset() }),
        Err(Error::AlreadyInitialized)
    );

    let lock = Operation::Lock {
        depositor: party(2),
        bounty_id: 1,
        amount: 500,
        deadline: T + 10,
        clearance: Clearance::Cleared,
    };
    let locked = by_name.lock_funds(party(2), 1, 500, T + 10, Clearance::Cleared).unwrap();
    assert_eq!(by_value.apply(lock), Ok(Some(locked)));
    assert_eq!(by_value.apply(lock), Err(Error::AlreadyExists));

    let lock_two = Operation::Lock {
        depositor: party(3),
        bounty_id: 2,
        amount: 700,
        deadline: T + 10,
        clearance: Clearance::Cleared,
    };
    by_name.lock_funds(party(3), 2, 700, T + 10, Clearance::Cleared).unwrap();
    by_value.apply(lock_two).unwrap();

    let released = by_name.release_funds(1, party(4), Clearance::Cleared).unwrap();
    assert_eq!(
        by_value.apply(Operation::Release {
            bounty_id: 1,
            contributor: party(4),
            clearance: Clearance::Cleared
        }),
        Ok(Some(released))
    );
    assert_eq!(
        by_value.apply(Operation::Refund { bounty_id: 2, now: T + 10, clearance: Clearance::Cleared }),
        Err(Error::DeadlineNotReached)
    );
    let refunded = by_name.refund(2, T + 11, Clearance::Cleared).unwrap();
    assert_eq!(
        by_value.apply(Operation::Refund { bounty_id: 2, now: T + 11, clearance: Clearance::Cleared }),
        Ok(Some(refunded))
    );
    assert_eq!(snapshot(&by_value, T + 11), snapshot(&by_name, T + 11));
}

#[test]
fn replay_rebuilds_the_ledger_and_skips_what_was_refused() {
    let journal = vec![
        Operation::Lock {
            depositor: party(2),
            bounty_id: 9,
            amount: 1,
            deadline: T,
            clearance: Clearance::Cleared,
        },
        Operation::Init { admin: party(1), asset: asset() },
        Operation::Lock {
            depositor: party(2),
            bounty_id: 1,
            amount: 500,
            deadline: T + 10,
            clearance: Clearance::Cleared,
        },
        Operation::Lock {
            depositor: party(2),
            bounty_id: 1,
            amount: 900,
            deadline: T + 10,
            clearance: Clearance::Cleared,
        },
        Operation::Lock {
            depositor: party(3),
            bounty_id: 2,
            amount: 700,
            deadline: T + 10,
            clearance: Clearance::TransferFailed(10),
        },
        Operation::Lock {
            depositor: party(3),
            bounty_id: 3,
            amount: 300,
            deadline: T + 10,
            clearance: Clearance::Cleared,
        },
        Operation::Refund { bounty_id: 3, now: T + 10, clearance: Clearance::Cleared },
        Operation::Refund { bounty_id: 3, now: T + 11, clearance: Clearance::Cleared },
        Operation::Release { bounty_id: 1, contributor: party(4), clearance: Clearance::Cleared },
    ];
    let replayed = EscrowLedger::replay(&journal);

    let mut direct = ready();
    direct.lock_funds(party(2), 1, 500, T + 10, Clearance::Cleared).unwrap();
    direct.lock_funds(party(3), 3, 300, T + 10, Clearance::Cleared).unwrap();
    direct.refund(3, T + 11, Clearance::Cleared).unwrap();
    direct.release_funds(1, party(4), Clearance::Cleared).unwrap();

    assert_eq!(snapshot(&replayed, T + 11), snapshot(&direct, T + 11));
    assert_eq!(replayed.get_escrow_count(), 2);
    let nothing: Vec<Operation> = Vec::new();
    assert_eq!(snapshot(&EscrowLedger::replay(&nothing), T), snapshot(&EscrowLedger::new(), T));
}

#[test]
fn totals_hold_the_largest_amounts() {
    let mut ledger = ready();
    for id in 0..4u64 {
        ledger.lock_funds(party(2), id, u64::MAX, T, Clearance::Cleared).unwrap();
    }
    assert_eq!(ledger.get_aggregate_stats().total_locked, 4 * (u64::MAX as u128));
    ledger.release_funds(0, party(3), Clearance::Cleared).unwrap();
    ledger.release_funds(1, party(3), Clearance::Cleared).unwrap();
    ledger.refund(2, T + 1, Clearance::Cleared).unwrap();
    let stats = ledger.get_aggregate_stats();
    assert_eq!(stats.total_locked, u64::MAX as u128);
    assert_eq!(stats.total_released, 2 * (u64::MAX as u128));
    assert_eq!(stats.total_refunded, u64::MAX as u128);
    assert_eq!(ledger.query_escrows_by_amount(u64::MAX, u64::MAX, 0, 10).len(), 4);
}

#[test]
fn identities_differ_by_kind_and_by_either_half() {
    let mut ledger = ready();
    let a = Address { kind: AddressKind::Account, hi: 1, lo: 1 };
    let b = Address { kind: AddressKind::Contract, hi: 1, lo: 1 };
    let c = Address { kind: AddressKind::Account, hi: 2, lo: 1 };
    let d = Address { kind: AddressKind::Account, hi: 1, lo: 2 };
    ledger.lock_funds(a, 1, 10, T, Clearance::Cleared).unwrap();
    ledger.lock_funds(b, 2, 20, T, Clearance::Cleared).unwrap();
    ledger.lock_funds(c, 3, 30, T, Clearance::Cleared).unwrap();
    ledger.lock_funds(d, 4, 40, T, Clearance::Cleared).unwrap();
    ledger.lock_funds(a, 5, 50, T, Clearance::Cleared).unwrap();
    let ids = |who: Address| -> Vec<u64> {
        ledger.query_escrows_by_depositor(who, 0, 10).iter().map(|e| e.bounty_id).collect()
    };
    assert_eq!(ids(a), vec![1, 5]);
    assert_eq!(ids(b), vec![2]);
    assert_eq!(ids(c), vec![3]);
    assert_eq!(ids(d), vec![4]);
}
