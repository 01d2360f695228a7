//! The monitoring queries: order, bounds and pagination.

use bounty_escrow::{Address, AddressKind, Clearance, Escrow, EscrowLedger, EscrowStatus};

const T: u64 = 1_700_000_000;

fn party(n: u128) -> Address {
    Address { kind: AddressKind::Account, hi: 0, lo: n }
}

fn ready() -> EscrowLedger {
    let mut ledger = EscrowLedger::new();
    ledger.init(party(1), Address { kind: AddressKind::Contract, hi: 0, lo: 99 }).unwrap();
    ledger
}

fn ids(escrows: &[Escrow]) -> Vec<u64> {
    escrows.iter().map(|e| e.bounty_id).collect()
}

/// Nine escrows of three depositors; 12 and 15 released (15 first), 13 and 17
/// refunded (17 first).
fn sample() -> EscrowLedger {
    let mut ledger = ready();
    let rows: [(u128, u64, u64, u64); 9] = [
        (2, 14, 500, T + 300),
        (3, 11, 200, T + 100),
        (2, 19, 500, T + 100),
        (4, 12, 900, T + 200),
        (3, 15, 100, T + 300),
        (2, 13, 500, T + 50),
        (4, 17, 700, T + 60),
        (3, 16, 200, T + 100),
        (2, 18, 1, T + 400),
    ];
    for (who, id, amount, deadline) in rows {
        ledger.lock_funds(party(who), id, amount, deadline, Clearance::Cleared).unwrap();
    }
    ledger.release_funds(15, party(7), Clearance::Cleared).unwrap();
    ledger.refund(17, T + 61, Clearance::Cleared).unwrap();
    ledger.release_funds(12, party(7), Clearance::Cleared).unwrap();
    ledger.refund(13, T + 70, Clearance::Cleared).unwrap();
    ledger
}

#[test]
fn locked_bucket_is_in_order_of_creation() {
    let ledger = sample();
    assert_eq!(
        ledger.get_escrow_ids_by_status(EscrowStatus::Locked, 0, 100),
        vec![14, 11, 19, 16, 18]
    );
    assert_eq!(
        ids(&ledger.query_escrows_by_status(EscrowStatus::Locked, 0, 100)),
        vec![14, 11, 19, 16, 18]
    );
}

#[test]
fn ended_buckets_are_in_order_of_ending() {
    let ledger = sample();
    assert_eq!(ledger.get_escrow_ids_by_status(EscrowStatus::Released, 0, 100), vec![15, 12]);
    assert_eq!(ledger.get_escrow_ids_by_status(EscrowStatus::Refunded, 0, 100), vec![17, 13]);
    let released = ledger.query_escrows_by_status(EscrowStatus::Released, 0, 100);
    assert_eq!(ids(&released), vec![15, 12]);
    assert!(released.iter().all(|e| e.status == EscrowStatus::Released));
    let refunded = ledger.query_escrows_by_status(EscrowStatus::Refunded, 0, 100);
    assert_eq!(ids(&refunded), vec![17, 13]);
    assert!(refunded.iter().all(|e| e.status == EscrowStatus::Refunded));
}

#[test]
fn the_full_view_and_the_identifiers_agree() {
    let ledger = sample();
    for status in [EscrowStatus::Locked, EscrowStatus::Released, EscrowStatus::Refunded] {
        for (offset, limit) in [(0, 100), (1, 2), (4, 1), (5, 5), (0, 0)] {
            assert_eq!(
                ids(&ledger.query_escrows_by_status(status, offset, limit)),
                ledger.get_escrow_ids_by_status(status, offset, limit)
            );
        }
    }
}

#[test]
fn status_listing_has_as_many_escrows_as_the_status_counts() {
    let ledger = sample();
    let stats = ledger.get_aggregate_stats();
    let huge = u64::MAX;
    let locked = ledger.query_escrows_by_status(EscrowStatus::Locked, 0, huge);
    let released = ledger.query_escrows_by_status(EscrowStatus::Released, 0, huge);
    let refunded = ledger.query_escrows_by_status(EscrowStatus::Refunded, 0, huge);
    assert_eq!(locked.len() as u64, stats.count_locked);
    assert_eq!(released.len() as u64, stats.count_released);
    assert_eq!(refunded.len() as u64, stats.count_refunded);
    assert_eq!(stats.count_locked + stats.count_released + stats.count_refunded, ledger.get_escrow_count());
    assert_eq!(ledger.get_escrow_count(), 9);
    assert_eq!(stats.total_locked, locked.iter().map(|e| e.amount as u128).sum::<u128>());
    assert_eq!(stats.total_released, released.iter().map(|e| e.amount as u128).sum::<u128>());
    assert_eq!(stats.total_refunded, refunded.iter().map(|e| e.amount as u128).sum::<u128>());
    assert_eq!(stats.total_locked, 500 + 200 + 500 + 200 + 1);
    assert_eq!(stats.total_released, 100 + 900);
    assert_eq!(stats.total_refunded, 700 + 500);
}

#[test]
fn pages_split_a_listing_without_gap_or_overlap() {
    let ledger = sample();
    let whole = ledger.get_escrow_ids_by_status(EscrowStatus::Locked, 0, 5);
    for k in 0..7u64 {
        for m in 0..7u64 {
            let mut joined = ledger.get_escrow_ids_by_status(EscrowStatus::Locked, 0, k);
            joined.extend(ledger.get_escrow_ids_by_status(EscrowStatus::Locked, k, m));
            assert_eq!(joined, ledger.get_escrow_ids_by_status(EscrowStatus::Locked, 0, k + m));
            let mut sorted = joined.clone();
            sorted.sort();
            sorted.dedup();
            assert_eq!(sorted.len(), joined.len());
            if k + m >= 5 {
                assert_eq!(joined, whole);
            }
        }
    }
}

#[test]
fn pagination_at_the_edges() {
    let ledger = sample();
    let locked = |offset: u64, limit: u64| ledger.get_escrow_ids_by_status(EscrowStatus::Locked, offset, limit);
    assert_eq!(locked(0, 0), Vec::<u64>::new());
    assert_eq!(locked(0, 1), vec![14]);
    assert_eq!(locked(4, 1), vec![18]);
    assert_eq!(locked(4, 10), vec![18]);
    assert_eq!(locked(3, 10), vec![16, 18]);
    // an offset at the size of the bucket, or past it
    assert_eq!(locked(5, 1), Vec::<u64>::new());
    assert_eq!(locked(6, 10), Vec::<u64>::new());
    assert_eq!(locked(u64::MAX, 10), Vec::<u64>::new());
    // offsets and limits whose sum does not fit
    assert_eq!(locked(1, u64::MAX), vec![11, 19, 16, 18]);
    assert_eq!(locked(u64::MAX, u64::MAX), Vec::<u64>::new());
    assert_eq!(locked(0, u64::MAX), vec![14, 11, 19, 16, 18]);
}

#[test]
fn amount_range_is_sorted_by_amount_and_identifier() {
    let ledger = sample();
    let all = ledger.query_escrows_by_amount(0, u64::MAX, 0, 100);
    assert_eq!(ids(&all), vec![18, 15, 11, 16, 13, 14, 19, 17, 12]);
    let amounts: Vec<u64> = all.iter().map(|e| e.amount).collect();
    assert_eq!(amounts, vec![1, 100, 200, 200, 500, 500, 500, 700, 900]);
}

#[test]
fn amount_range_covers_every_status() {
    let ledger = sample();
    let found = ledger.query_escrows_by_amount(500, 900, 0, 100);
    assert_eq!(ids(&found), vec![13, 14, 19, 17, 12]);
    let statuses: Vec<EscrowStatus> = found.iter().map(|e| e.status).collect();
    assert_eq!(
        statuses,
        vec![
            EscrowStatus::Refunded,
            EscrowStatus::Locked,
            EscrowStatus::Locked,
            EscrowStatus::Refunded,
            EscrowStatus::Released,
        ]
    );
}

#[test]
fn amount_range_counts_both_bounds_in() {
    let ledger = sample();
    assert_eq!(ids(&ledger.query_escrows_by_amount(200, 500, 0, 100)), vec![11, 16, 13, 14, 19]);
    assert_eq!(ids(&ledger.query_escrows_by_amount(201, 499, 0, 100)), Vec::<u64>::new());
    assert_eq!(ids(&ledger.query_escrows_by_amount(200, 200, 0, 100)), vec![11, 16]);
    assert_eq!(ids(&ledger.query_escrows_by_amount(900, 900, 0, 100)), vec![12]);
    assert_eq!(ids(&ledger.query_escrows_by_amount(901, u64::MAX, 0, 100)), Vec::<u64>::new());
    assert_eq!(ids(&ledger.query_escrows_by_amount(0, 0, 0, 100)), Vec::<u64>::new());
    assert_eq!(ids(&ledger.query_escrows_by_amount(0, 1, 0, 100)), vec![18]);
    // bounds the wrong way round
    assert_eq!(ids(&ledger.query_escrows_by_amount(500, 200, 0, 100)), Vec::<u64>::new());
    assert_eq!(ids(&ledger.query_escrows_by_amount(u64::MAX, 0, 0, 100)), Vec::<u64>::new());
}

#[test]
fn amount_range_is_paginated() {
    let ledger = sample();
    assert_eq!(ids(&ledger.query_escrows_by_amount(200, 700, 0, 2)), vec![11, 16]);
    assert_eq!(ids(&ledger.query_escrows_by_amount(200, 700, 2, 2)), vec![13, 14]);
    assert_eq!(ids(&ledger.query_escrows_by_amount(200, 700, 4, 2)), vec![19, 17]);
    assert_eq!(ids(&ledger.query_escrows_by_amount(200, 700, 6, 2)), Vec::<u64>::new());
    assert_eq!(ids(&ledger.query_escrows_by_amount(200, 700, 5, u64::MAX)), vec![17]);
    assert_eq!(ids(&ledger.query_escrows_by_amount(200, 700, 0, 0)), Vec::<u64>::new());
    assert_eq!(ids(&ledger.query_escrows_by_amount(200, 700, u64::MAX, u64::MAX)), Vec::<u64>::new());
}

#[test]
fn deadline_range_is_sorted_by_deadline_and_identifier() {
    let ledger = sample();
    let all = ledger.query_escrows_by_deadline(0, u64::MAX, 0, 100);
    assert_eq!(ids(&all), vec![13, 17, 11, 16, 19, 12, 14, 15, 18]);
    let deadlines: Vec<u64> = all.iter().map(|e| e.deadline - T).collect();
    assert_eq!(deadlines, vec![50, 60, 100, 100, 100, 200, 300, 300, 400]);
}

#[test]
fn deadline_range_counts_both_bounds_in_whatever_the_status() {
    let ledger = sample();
    assert_eq!(ids(&ledger.query_escrows_by_deadline(T + 60, T + 200, 0, 100)), vec![17, 11, 16, 19, 12]);
    assert_eq!(ids(&ledger.query_escrows_by_deadline(T + 61, T + 99, 0, 100)), Vec::<u64>::new());
    assert_eq!(ids(&ledger.query_escrows_by_deadline(T + 400, u64::MAX, 0, 100)), vec![18]);
    assert_eq!(ids(&ledger.query_escrows_by_deadline(0, T + 50, 0, 100)), vec![13]);
    assert_eq!(ids(&ledger.query_escrows_by_deadline(0, T + 49, 0, 100)), Vec::<u64>::new());
    assert_eq!(ids(&ledger.query_escrows_by_deadline(T + 100, T + 100, 1, 1)), vec![16]);
    assert_eq!(ids(&ledger.query_escrows_by_deadline(T + 200, T + 100, 0, 100)), Vec::<u64>::new());
}

#[test]
fn deadline_at_the_end_of_time_is_found() {
    let mut ledger = ready();
    ledger.lock_funds(party(2), 1, 5, u64::MAX, Clearance::Cleared).unwrap();
    ledger.lock_funds(party(2), 2, 5, u64::MAX - 1, Clearance::Cleared).unwrap();
    ledger.lock_funds(party(2), 3, 5, 0, Clearance::Cleared).unwrap();
    assert_eq!(ids(&ledger.query_escrows_by_deadline(u64::MAX, u64::MAX, 0, 10)), vec![1]);
    assert_eq!(ids(&ledger.query_escrows_by_deadline(u64::MAX - 1, u64::MAX, 0, 10)), vec![2, 1]);
    assert_eq!(ids(&ledger.query_escrows_by_deadline(0, u64::MAX - 1, 0, 10)), vec![3, 2]);
    assert_eq!(ids(&ledger.query_escrows_by_deadline(0, 0, 0, 10)), vec![3]);
}

#[test]
fn depositor_listing_is_in_order_of_creation_and_keeps_ended_escrows() {
    let ledger = sample();
    assert_eq!(ids(&ledger.query_escrows_by_depositor(party(2), 0, 100)), vec![14, 19, 13, 18]);
    assert_eq!(ids(&ledger.query_escrows_by_depositor(party(3), 0, 100)), vec![11, 15, 16]);
    assert_eq!(ids(&ledger.query_escrows_by_depositor(party(4), 0, 100)), vec![12, 17]);
    assert_eq!(ids(&ledger.query_escrows_by_depositor(party(7), 0, 100)), Vec::<u64>::new());
    let third = ledger.query_escrows_by_depositor(party(3), 1, 1);
    assert_eq!(ids(&third), vec![15]);
    assert_eq!(third[0].status, EscrowStatus::Released);
    assert_eq!(ids(&ledger.query_escrows_by_depositor(party(2), 3, 5)), vec![18]);
    assert_eq!(ids(&ledger.query_escrows_by_depositor(party(2), 4, 5)), Vec::<u64>::new());
}

#[test]
fn listings_show_the_current_record() {
    let ledger = sample();
    let expected = Escrow {
        bounty_id: 12,
        depositor: party(4),
        amount: 900,
        deadline: T + 200,
        status: EscrowStatus::Released,
    };
    assert_eq!(ledger.query_escrows_by_status(EscrowStatus::Released, 1, 1), vec![expected]);
    assert_eq!(ledger.query_escrows_by_amount(900, 900, 0, 1), vec![expected]);
    assert_eq!(ledger.query_escrows_by_deadline(T + 200, T + 200, 0, 1), vec![expected]);
    assert_eq!(ledger.query_escrows_by_depositor(party(4), 0, 1), vec![expected]);
}

#[test]
fn many_escrows_in_scrambled_order() {
    let mut ledger = ready();
    let n: u64 = 500;
    // 7 is a unit modulo 500, so this visits every identifier once
    for step in 0..n {
        let id = (step * 7 + 3) % n;
        let amount = id % 10 + 1;
        let deadline = T + id % 25;
        ledger
            .lock_funds(party((id % 5) as u128 + 2), id, amount, deadline, Clearance::Cleared)
            .unwrap();
    }
    assert_eq!(ledger.get_escrow_count(), n);
    for id in (0..n).filter(|id| id % 3 == 0) {
        ledger.release_funds(id, party(9), Clearance::Cleared).unwrap();
    }
    for id in (0..n).filter(|id| id % 3 == 1) {
        ledger.refund(id, T + 100, Clearance::Cleared).unwrap();
    }
    let stats = ledger.get_aggregate_stats();
    assert_eq!(stats.count_released, 167);
    assert_eq!(stats.count_refunded, 167);
    assert_eq!(stats.count_locked, 166);

    let by_amount = ledger.query_escrows_by_amount(0, u64::MAX, 0, u64::MAX);
    assert_eq!(by_amount.len() as u64, n);
    let mut expected: Vec<(u64, u64)> = (0..n).map(|id| (id % 10 + 1, id)).collect();
    expected.sort();
    let got: Vec<(u64, u64)> = by_amount.iter().map(|e| (e.amount, e.bounty_id)).collect();
    assert_eq!(got, expected);

    let by_deadline = ledger.query_escrows_by_deadline(T + 5, T + 9, 0, u64::MAX);
    let mut expected: Vec<(u64, u64)> =
        (0..n).filter(|id| (5..=9).contains(&(id % 25))).map(|id| (T + id % 25, id)).collect();
    expected.sort();
    let got: Vec<(u64, u64)> = by_deadline.iter().map(|e| (e.deadline, e.bounty_id)).collect();
    assert_eq!(got, expected);

    for e in ledger.query_escrows_by_amount(0, u64::MAX, 0, u64::MAX) {
        let status = match e.bounty_id % 3 {
            0 => EscrowStatus::Released,
            1 => EscrowStatus::Refunded,
            _ => EscrowStatus::Locked,
        };
        assert_eq!(e.status, status);
        assert_eq!(e.depositor, party((e.bounty_id % 5) as u128 + 2));
    }
    let released = ledger.get_escrow_ids_by_status(EscrowStatus::Released, 0, u64::MAX);
    assert_eq!(released, (0..n).filter(|id| id % 3 == 0).collect::<Vec<u64>>());
    let locked = ledger.get_escrow_ids_by_status(EscrowStatus::Locked, 0, u64::MAX);
    let expected: Vec<u64> = (0..n).map(|step| (step * 7 + 3) % n).filter(|id| id % 3 == 2).collect();
    assert_eq!(locked, expected);
    let of_two = ledger.query_escrows_by_depositor(party(2), 0, u64::MAX);
    let expected: Vec<u64> = (0..n).map(|step| (step * 7 + 3) % n).filter(|id| id % 5 == 0).collect();
    assert_eq!(ids(&of_two), expected);
}

#[test]
fn escrow_count_is_the_number_of_successful_locks() {
    let mut ledger = ready();
    let mut successes: u64 = 0;
    let attempts: [(u64, u64, Clearance); 8] = [
        (1, 10, Clearance::Cleared),
        (1, 10, Clearance::Cleared),
        (2, 0, Clearance::Cleared),
        (2, 10, Clearance::TransferFailed(10)),
        (2, 10, Clearance::Unauthorized),
        (2, 10, Clearance::Cleared),
        (3, 10, Clearance::Cleared),
        (2, 10, Clearance::Cleared),
    ];
    for (id, amount, clearance) in attempts {
        let before = ledger.get_escrow_count();
        let result = ledger.lock_funds(party(2), id, amount, T + 10, clearance);
        if result.is_ok() {
            successes += 1;
            assert_eq!(ledger.get_escrow_count(), before + 1);
        } else {
            assert_eq!(ledger.get_escrow_count(), before);
        }
    }
    assert_eq!(successes, 3);
    assert_eq!(ledger.get_escrow_count(), 3);
    ledger.release_funds(1, party(3), Clearance::Cleared).unwrap();
    assert_eq!(ledger.get_escrow_count(), 3);
    ledger.refund(2, T + 11, Clearance::Cleared).unwrap();
    assert_eq!(ledger.get_escrow_count(), 3);
}
