use fuso_elections::runtime::{run_to_block, Runtime};

const ALICE: u64 = 1;
const BOB: u64 = 2;
const CHRIS: u64 = 3;
const DAVE: u64 = 4;
const EVE: u64 = 5;
const FERDIE: u64 = 6;

const ALL_ACCOUNT: [u64; 27] = [
    ALICE, BOB, CHRIS, DAVE, EVE, FERDIE, 11, 12, 13, 14, 15, 16, 17, 18, 19, 20, 21, 22, 23, 24,
    25, 26, 27, 28, 29, 30, 31,
];

fn council_test_ext() -> Runtime {
    let mut rt = Runtime::new(40, 1000, 10, 60, 4, 21, &vec![ALICE, BOB, CHRIS]);
    for (who, total) in [(ALICE, 6000000), (BOB, 6100000), (CHRIS, 52000), (DAVE, 53000), (EVE, 54000), (FERDIE, 55000)] {
        rt.ledger.set_balance(who, total);
    }
    rt
}

#[test]
fn test_init_validators() {
    let mut rt = council_test_ext();
    assert_eq!(rt.session_validators.len(), 0);
    assert_eq!(rt.council.validators.len(), 3);
    assert_eq!(rt.council.validators.contains(&ALICE), true);
    assert_eq!(rt.council.validators.contains(&BOB), true);
    assert_eq!(rt.council.validators.contains(&CHRIS), true);
    assert_eq!(rt.council.members.len(), 0);
    assert_eq!(rt.end_session_block(), 10);

    rt.rotate_session();
    assert_eq!(rt.session_validators.len(), 0);
}

#[test]
fn test_new_session() {
    let mut rt = council_test_ext();
    run_to_block(&mut rt, 12);
    assert_eq!(rt.council.members.len(), 0);

    for who in [ALICE, BOB, CHRIS, DAVE, EVE] {
        assert_eq!(rt.add_candidate(ALICE, who), Ok(()));
    }
    for who in [ALICE, BOB, CHRIS, DAVE, EVE] {
        assert_eq!(rt.vote(ALICE, who, 1, 2000), Ok(()));
    }

    run_to_block(&mut rt, 75);
    rt.rotate_session();
    assert_eq!(rt.council.members.len(), 5);
    assert_eq!(rt.session_validators.len(), 5);

    run_to_block(&mut rt, 155);
    rt.rotate_session();
    assert_eq!(rt.session_validators.len(), 5);

    // fewer than four entries: the last set stays
    for who in [ALICE, BOB, CHRIS] {
        assert_eq!(rt.add_candidate(ALICE, who), Ok(()));
    }
    for who in [ALICE, BOB, CHRIS] {
        assert_eq!(rt.vote(ALICE, who, 3, 2000), Ok(()));
    }

    run_to_block(&mut rt, 215);
    rt.rotate_session();
    assert_eq!(rt.council.members.len(), 5);
    assert_eq!(rt.session_validators.len(), 5);

    // more than 21 entries
    for account in ALL_ACCOUNT.iter() {
        assert_eq!(rt.add_candidate(ALICE, *account), Ok(()));
        assert_eq!(rt.vote(ALICE, *account, 4, 2000), Ok(()));
    }

    run_to_block(&mut rt, 275);
    rt.rotate_session();
    assert_eq!(rt.council.members.len(), 21);
    assert_eq!(rt.session_validators.len(), 21);
}

#[test]
fn test_change_lock_id() {
    let mut rt = council_test_ext();
    run_to_block(&mut rt, 12);

    // fewer than four entries
    for who in [ALICE, BOB, CHRIS] {
        assert_eq!(rt.add_candidate(ALICE, who), Ok(()));
    }
    for who in [ALICE, BOB, CHRIS] {
        assert_eq!(rt.vote(ALICE, who, 1, 2000), Ok(()));
    }
    let alice_lock_balance = rt.locks(ALICE);
    assert_eq!(alice_lock_balance.len(), 1);
    assert_eq!(alice_lock_balance[0].amount, 6000);

    run_to_block(&mut rt, 75);
    rt.rotate_session();
    assert_eq!(rt.locks(ALICE).len(), 0);

    run_to_block(&mut rt, 80);
    rt.rotate_session();

    for who in [ALICE, BOB, CHRIS, DAVE, EVE] {
        assert_eq!(rt.add_candidate(ALICE, who), Ok(()));
    }
    for who in [ALICE, BOB, CHRIS, DAVE, EVE] {
        assert_eq!(rt.vote(ALICE, who, 2, 2000), Ok(()));
    }
    for who in [ALICE, BOB, CHRIS, DAVE, EVE] {
        assert_eq!(rt.vote(BOB, who, 2, 3000), Ok(()));
    }

    let alice_lock_balance = rt.locks(ALICE);
    let bob_lock_balance = rt.locks(BOB);
    let dave_lock_balance = rt.locks(DAVE);
    assert_eq!(alice_lock_balance.len(), 1);
    assert_eq!(bob_lock_balance.len(), 1);
    assert_eq!(dave_lock_balance.len(), 0);
    assert_eq!(alice_lock_balance[0].amount, 10000);
    assert_eq!(bob_lock_balance[0].amount, 15000);

    run_to_block(&mut rt, 135);
    rt.rotate_session();
    let alice_lock_balance = rt.locks(ALICE);
    let bob_lock_balance = rt.locks(BOB);
    let dave_lock_balance = rt.locks(DAVE);
    assert_eq!(alice_lock_balance.len(), 1);
    assert_eq!(bob_lock_balance.len(), 1);
    assert_eq!(dave_lock_balance.len(), 0);
    assert_eq!(alice_lock_balance[0].amount, 10000);
    assert_eq!(bob_lock_balance[0].amount, 15000);

    run_to_block(&mut rt, 195);
    rt.rotate_session();

    for who in [ALICE, BOB, CHRIS, DAVE, EVE] {
        assert_eq!(rt.add_candidate(ALICE, who), Ok(()));
    }
    for who in [ALICE, BOB, CHRIS, DAVE, EVE] {
        assert_eq!(rt.vote(ALICE, who, 4, 4000), Ok(()));
    }
    for who in [ALICE, BOB, CHRIS, DAVE, EVE] {
        assert_eq!(rt.vote(BOB, who, 4, 6000), Ok(()));
    }

    let alice_lock_balance = rt.locks(ALICE);
    let bob_lock_balance = rt.locks(BOB);
    let dave_lock_balance = rt.locks(DAVE);
    assert_eq!(alice_lock_balance.len(), 2);
    assert_eq!(bob_lock_balance.len(), 2);
    assert_eq!(dave_lock_balance.len(), 0);
    assert_eq!(alice_lock_balance[0].amount, 10000);
    assert_eq!(alice_lock_balance[1].amount, 20000);
    assert_eq!(bob_lock_balance[0].amount, 15000);
    assert_eq!(bob_lock_balance[1].amount, 30000);

    run_to_block(&mut rt, 255);
    rt.rotate_session();
    let alice_lock_balance = rt.locks(ALICE);
    let bob_lock_balance = rt.locks(BOB);
    let dave_lock_balance = rt.locks(DAVE);
    assert_eq!(alice_lock_balance.len(), 1);
    assert_eq!(bob_lock_balance.len(), 1);
    assert_eq!(dave_lock_balance.len(), 0);
    assert_eq!(alice_lock_balance[0].amount, 20000);
    assert_eq!(bob_lock_balance[0].amount, 30000);

    run_to_block(&mut rt, 315);
    rt.rotate_session();

    // more than 21 entries
    for (index, account) in ALL_ACCOUNT.iter().enumerate() {
        let amount = (index as u64).saturating_mul(10).saturating_add(2000);
        assert_eq!(rt.add_candidate(ALICE, *account), Ok(()));
        assert_eq!(rt.vote(ALICE, *account, 6, amount), Ok(()));
    }

    let alice_lock_balance = rt.locks(ALICE);
    let bob_lock_balance = rt.locks(BOB);
    assert_eq!(alice_lock_balance.len(), 2);
    assert_eq!(bob_lock_balance.len(), 1);
    assert_eq!(alice_lock_balance[0].amount, 20000);
    // all 27 pledges
    assert_eq!(alice_lock_balance[1].amount, 57510);

    run_to_block(&mut rt, 385);
    rt.rotate_session();

    let alice_lock_balance = rt.locks(ALICE);
    let bob_lock_balance = rt.locks(BOB);
    assert_eq!(alice_lock_balance.len(), 1);
    assert_eq!(bob_lock_balance.len(), 0);
    // the 21 best-backed pledges
    assert_eq!(alice_lock_balance[0].amount, 45360);
}
