use fuso_elections::council::Council;
use fuso_elections::elections::{Elections, Error, Referendum};
use fuso_elections::ledger::{Ledger, LockId};
use fuso_elections::runtime::{run_to_block, Runtime};

const ALICE: u64 = 1;
const BOB: u64 = 2;
const CHRIS: u64 = 3;
const DAVE: u64 = 4;
const EVE: u64 = 5;

fn runtime() -> Runtime {
    let mut rt = Runtime::new(40, 1000, 10, 60, 4, 21, &vec![ALICE, BOB, CHRIS]);
    for who in 1..=40u64 {
        rt.ledger.set_balance(who, 100000);
    }
    rt
}

fn sorted(mut v: Vec<u64>) -> Vec<u64> {
    v.sort();
    v
}

#[test]
fn three_entries_below_minimum_release_all() {
    let mut rt = runtime();
    run_to_block(&mut rt, 12);
    for who in [ALICE, BOB, CHRIS] {
        assert_eq!(rt.add_candidate(ALICE, who), Ok(()));
    }
    for who in [ALICE, BOB, CHRIS] {
        assert_eq!(rt.vote(DAVE, who, 1, 2000), Ok(()));
    }
    assert_eq!(rt.ledger.lock_of(LockId::Election, DAVE), Some(6000));
    assert_eq!(rt.ledger.usable_balance(DAVE), 94000);
    run_to_block(&mut rt, 69);
    assert_eq!(rt.council.members.len(), 0);
    assert_eq!(sorted(rt.council.validators.clone()), vec![ALICE, BOB, CHRIS]);
    assert_eq!(rt.locks(DAVE).len(), 0);
    assert_eq!(rt.ledger.usable_balance(DAVE), 100000);
}

#[test]
fn five_entries_migrate_to_session_lock() {
    let mut rt = runtime();
    run_to_block(&mut rt, 72);
    assert_eq!(rt.elections.get_round(), 2);
    let candidates = [ALICE, BOB, CHRIS, DAVE, EVE];
    let backers = [11u64, 12, 13, 14, 15];
    for who in candidates {
        assert_eq!(rt.add_candidate(ALICE, who), Ok(()));
    }
    for (who, backer) in candidates.iter().zip(backers.iter()) {
        assert_eq!(rt.vote(*backer, *who, 2, 9000), Ok(()));
        assert_eq!(rt.ledger.lock_of(LockId::Election, *backer), Some(9000));
    }
    run_to_block(&mut rt, 129);
    assert_eq!(sorted(rt.council.validators.clone()), vec![ALICE, BOB, CHRIS, DAVE, EVE]);
    for backer in backers {
        assert_eq!(rt.ledger.lock_of(LockId::Session, backer), Some(9000));
        assert_eq!(rt.ledger.lock_of(LockId::Election, backer), None);
    }
}

#[test]
fn twenty_seven_entries_keep_the_best_backed() {
    let mut rt = runtime();
    run_to_block(&mut rt, 12);
    let accounts: Vec<u64> = (11..38u64).collect();
    for (i, who) in accounts.iter().enumerate() {
        assert_eq!(rt.add_candidate(ALICE, *who), Ok(()));
        assert_eq!(rt.vote(*who, *who, 1, 2000 + 10 * i as u64), Ok(()));
    }
    run_to_block(&mut rt, 69);
    assert_eq!(rt.council.members.len(), 21);
    assert_eq!(sorted(rt.council.validators.clone()), accounts[6..].to_vec());
    for who in &accounts[..6] {
        assert_eq!(rt.locks(*who).len(), 0);
    }
    for (i, who) in accounts.iter().enumerate().skip(6) {
        assert_eq!(rt.ledger.lock_of(LockId::Session, *who), Some(2000 + 10 * i as u64));
        assert_eq!(rt.ledger.lock_of(LockId::Election, *who), None);
    }
}

#[test]
fn repeated_pledges_accumulate() {
    let mut e = Elections::new(40, 1000);
    let mut ledger = Ledger::new();
    ledger.set_balance(ALICE, 100000);
    ledger.set_balance(BOB, 100000);
    e.start_proposal(10);
    assert_eq!(e.add_candidate(10, CHRIS), Ok(()));
    assert_eq!(e.vote(&mut ledger, 10, ALICE, CHRIS, 1, 1000), Ok(()));
    assert_eq!(e.vote(&mut ledger, 11, BOB, CHRIS, 1, 2500), Ok(()));
    assert_eq!(e.vote(&mut ledger, 12, ALICE, CHRIS, 1, 1500), Ok(()));
    assert!(e.candidates.is_empty());
    let entry = &e.voter_members[0];
    assert_eq!(entry.amount, 5000);
    assert_eq!(entry.pledger.len(), 2);
    assert_eq!(entry.pledger[0].account, ALICE);
    assert_eq!(entry.pledger[0].amount, 2500);
    assert_eq!(entry.pledger[0].block_number, 12);
    assert_eq!(entry.pledger[1].amount, 2500);
    assert_eq!(entry.amount, entry.pledger.iter().map(|p| p.amount).sum::<u64>());
    assert_eq!(ledger.lock_of(LockId::Election, ALICE), Some(2500));
}

#[test]
fn equal_totals_keep_the_earlier_entry_first() {
    let mut e = Elections::new(40, 1);
    let mut ledger = Ledger::new();
    ledger.set_balance(ALICE, 100000);
    e.start_proposal(10);
    for who in [BOB, CHRIS, DAVE] {
        assert_eq!(e.add_candidate(10, who), Ok(()));
    }
    assert_eq!(e.vote(&mut ledger, 10, ALICE, BOB, 1, 500), Ok(()));
    assert_eq!(e.vote(&mut ledger, 10, ALICE, CHRIS, 1, 700), Ok(()));
    assert_eq!(e.vote(&mut ledger, 10, ALICE, DAVE, 1, 500), Ok(()));
    let order: Vec<u64> = e.voter_members.iter().map(|v| v.account).collect();
    assert_eq!(order, vec![CHRIS, BOB, DAVE]);
    // BOB reaches 700 after CHRIS did and ranks behind it
    assert_eq!(e.vote(&mut ledger, 10, ALICE, BOB, 1, 200), Ok(()));
    let order: Vec<u64> = e.voter_members.iter().map(|v| v.account).collect();
    assert_eq!(order, vec![CHRIS, BOB, DAVE]);
    assert_eq!(e.vote(&mut ledger, 10, ALICE, DAVE, 1, 201), Ok(()));
    let order: Vec<u64> = e.voter_members.iter().map(|v| v.account).collect();
    assert_eq!(order, vec![DAVE, CHRIS, BOB]);
}

#[test]
fn candidate_total_overflow_is_refused() {
    let mut e = Elections::new(40, 1);
    let mut ledger = Ledger::new();
    ledger.set_balance(ALICE, u64::MAX);
    ledger.set_balance(BOB, u64::MAX);
    e.start_proposal(10);
    assert_eq!(e.add_candidate(10, CHRIS), Ok(()));
    assert_eq!(e.vote(&mut ledger, 10, ALICE, CHRIS, 1, u64::MAX - 10), Ok(()));
    assert_eq!(e.vote(&mut ledger, 10, BOB, CHRIS, 1, 100), Err(Error::Overflow));
    assert_eq!(e.voter_members[0].amount, u64::MAX - 10);
    assert_eq!(ledger.lock_of(LockId::Election, BOB), None);
}

#[test]
fn lock_above_balance_is_refused() {
    let mut e = Elections::new(40, 1);
    let mut ledger = Ledger::new();
    ledger.set_balance(ALICE, 10000);
    e.start_proposal(10);
    assert_eq!(e.add_candidate(10, CHRIS), Ok(()));
    assert_eq!(e.vote(&mut ledger, 10, ALICE, CHRIS, 1, 5000), Ok(()));
    ledger.set_balance(ALICE, 1000);
    assert_eq!(e.vote(&mut ledger, 10, ALICE, CHRIS, 1, 10), Err(Error::InsufficientBalance));
    assert_eq!(ledger.lock_of(LockId::Election, ALICE), Some(5000));
}

#[test]
fn first_pledge_above_balance_is_refused() {
    let mut e = Elections::new(40, 1);
    let mut ledger = Ledger::new();
    e.start_proposal(10);
    assert_eq!(e.add_candidate(10, CHRIS), Ok(()));
    assert_eq!(e.vote(&mut ledger, 10, ALICE, CHRIS, 1, 5000), Err(Error::InsufficientBalance));
    ledger.set_balance(ALICE, 4999);
    assert_eq!(e.vote(&mut ledger, 10, ALICE, CHRIS, 1, 5000), Err(Error::InsufficientBalance));
    assert_eq!(e.candidates, vec![CHRIS]);
    assert_eq!(ledger.locks(ALICE).len(), 0);
    ledger.set_balance(ALICE, 5000);
    assert_eq!(e.vote(&mut ledger, 10, ALICE, CHRIS, 1, 5000), Ok(()));
}

#[test]
fn pledge_may_use_the_whole_free_balance() {
    let mut e = Elections::new(40, 1);
    let mut ledger = Ledger::new();
    ledger.set_balance(ALICE, 10000);
    e.start_proposal(10);
    assert_eq!(e.add_candidate(10, CHRIS), Ok(()));
    assert_eq!(e.vote(&mut ledger, 10, ALICE, CHRIS, 1, 4000), Ok(()));
    assert_eq!(e.vote(&mut ledger, 10, ALICE, CHRIS, 1, 6001), Err(Error::InsufficientBalance));
    assert_eq!(e.vote(&mut ledger, 10, ALICE, CHRIS, 1, 6000), Ok(()));
    assert_eq!(ledger.lock_of(LockId::Election, ALICE), Some(10000));
    assert_eq!(ledger.usable_balance(ALICE), 0);
}

#[test]
fn open_round_resets_and_counts() {
    let mut e = Elections::new(40, 1);
    let mut ledger = Ledger::new();
    ledger.set_balance(ALICE, 10000);
    assert_eq!(e.get_round(), 0);
    assert_eq!(e.start_proposal(10), 1);
    assert_eq!(e.add_candidate(10, BOB), Ok(()));
    assert_eq!(e.add_candidate(10, CHRIS), Ok(()));
    assert_eq!(e.vote(&mut ledger, 10, ALICE, CHRIS, 1, 100), Ok(()));
    assert_eq!(e.start_proposal(60), 2);
    assert!(e.candidates.is_empty());
    assert!(e.voter_members.is_empty());
    assert_eq!(e.start_block_number, Some(60));
    assert_eq!(e.end_block_number, Some(100));
    assert_eq!(e.proposal(u64::MAX - 5), 3);
    assert_eq!(e.end_block_number, Some(u64::MAX));
    assert!(e.get_result(3).is_some());
    assert!(e.get_result(2).is_none());
}

#[test]
fn voting_window_is_inclusive() {
    let mut e = Elections::new(40, 1);
    e.start_proposal(100);
    assert_eq!(e.is_proposal(140), Ok(()));
    assert_eq!(e.is_proposal(141), Err(Error::ProposalOver));
    assert_eq!(e.add_candidate(140, BOB), Ok(()));
}

#[test]
fn term_boundaries() {
    let c = Council::new(10, 60, 4, 21, &vec![ALICE, ALICE, BOB]);
    assert_eq!(c.validators, vec![ALICE, BOB]);
    assert_eq!(c.end_session_block(0), 10);
    assert_eq!(c.end_session_block(3), 190);
    assert_eq!(c.end_session_block(u32::MAX), u64::MAX.min(10 + 60 * u32::MAX as u64));
    assert!(c.should_end_session(1, 70));
    assert!(!c.should_end_session(1, 69));
    let big = Council::new(u64::MAX - 1, u64::MAX, 4, 21, &vec![]);
    assert_eq!(big.end_session_block(2), u64::MAX);
    assert_eq!(c.estimate_next_session_rotation(5), None);
    assert_eq!(c.new_session(), vec![ALICE, BOB]);
}

#[test]
fn ledger_lists_session_lock_first() {
    let mut ledger = Ledger::new();
    ledger.set_lock(LockId::Election, ALICE, 5);
    ledger.set_lock(LockId::Session, ALICE, 7);
    let locks = ledger.locks(ALICE);
    assert_eq!(locks.len(), 2);
    assert_eq!((locks[0].id, locks[0].amount), (LockId::Session, 7));
    assert_eq!((locks[1].id, locks[1].amount), (LockId::Election, 5));
    ledger.set_balance(ALICE, 20);
    assert_eq!(ledger.usable_balance(ALICE), 13);
    ledger.set_balance(ALICE, 6);
    assert_eq!(ledger.usable_balance(ALICE), 0);
    ledger.remove_lock(LockId::Session, ALICE);
    assert_eq!(ledger.locks(ALICE).len(), 1);
    assert_eq!(ledger.total_balance(BOB), 0);
}
