use token_ledger::apply;
use token_ledger::codec::{stream_append_bytes, stream_append_u64};
use token_ledger::ledger::{Ledger, LedgerError};
use token_ledger::name::name_to_u64;
use token_ledger::records::{Asset, stream_append_asset};

fn sym(ticker: &str, precision: u8) -> u64 {
    let mut v: u64 = 0;
    for (i, b) in ticker.bytes().enumerate() {
        v |= (b as u64) << (8 * (i + 1));
    }
    v | precision as u64
}

fn sys4() -> u64 {
    sym("SYS", 4)
}

fn asset(amount: i64, symbol_code: u64) -> Asset {
    Asset { amount, symbol_code }
}

/// A ledger with SYS@4 created (ceiling 1,000,000) and 500 issued to alice.
fn funded_ledger() -> (Ledger, Vec<u64>, u64, u64, u64) {
    let eosio = name_to_u64("eosio");
    let alice = name_to_u64("alice");
    let bob = name_to_u64("bob");
    let auth = vec![eosio, alice, bob];
    let mut l = Ledger::new();
    l.create(&auth, eosio, asset(1_000_000, sys4())).unwrap();
    l.issue(&auth, alice, asset(500, sys4())).unwrap();
    (l, auth, eosio, alice, bob)
}

#[test]
fn create_issue_transfer_scenario() {
    let (mut l, auth, _eosio, alice, bob) = funded_ledger();
    l.transfer(&auth, alice, bob, asset(200, sys4())).unwrap();
    assert_eq!(l.get_balance(alice, sys4() >> 8).unwrap().amount, 300);
    assert_eq!(l.get_balance(bob, sys4() >> 8).unwrap().amount, 200);
    assert_eq!(l.get_stat(sys4() >> 8).unwrap().supply.amount, 500);
}

#[test]
fn full_quantity_passes_through_and_empties_the_sender() {
    let eosio = name_to_u64("eosio");
    let first = name_to_u64("first");
    let second = name_to_u64("second");
    let auth = vec![eosio, first];
    let mut l = Ledger::new();
    l.create(&auth, eosio, asset(1_000, sys4())).unwrap();
    l.issue(&auth, first, asset(250, sys4())).unwrap();
    l.transfer(&auth, first, second, asset(250, sys4())).unwrap();
    assert_eq!(l.get_balance(second, sys4() >> 8).unwrap().amount, 250);
    assert!(l.get_balance(first, sys4() >> 8).is_none());
}

#[test]
fn issue_beyond_max_supply_fails_and_keeps_supply() {
    let (mut l, auth, _eosio, alice, _bob) = funded_ledger();
    let r = l.issue(&auth, alice, asset(999_501, sys4()));
    assert_eq!(r, Err(LedgerError::MaxSupplyExceeded));
    assert_eq!(l.get_stat(sys4() >> 8).unwrap().supply.amount, 500);
    assert_eq!(l.get_balance(alice, sys4() >> 8).unwrap().amount, 500);
}

#[test]
fn overdrawn_transfer_fails_and_keeps_both_balances() {
    let (mut l, auth, _eosio, alice, bob) = funded_ledger();
    l.transfer(&auth, alice, bob, asset(100, sys4())).unwrap();
    let r = l.transfer(&auth, alice, bob, asset(401, sys4()));
    assert_eq!(r, Err(LedgerError::InsufficientBalance));
    assert_eq!(l.get_balance(alice, sys4() >> 8).unwrap().amount, 400);
    assert_eq!(l.get_balance(bob, sys4() >> 8).unwrap().amount, 100);
}

#[test]
fn duplicate_create_fails_with_duplicate_symbol() {
    let eosio = name_to_u64("eosio");
    let other = name_to_u64("other");
    let auth = vec![eosio, other];
    let mut l = Ledger::new();
    l.create(&auth, eosio, asset(1_000, sys4())).unwrap();
    // The same ticker at another precision is still the same stats row.
    let r = l.create(&auth, other, asset(5_000, sym("SYS", 2)));
    assert_eq!(r, Err(LedgerError::DuplicateSymbol));
    assert_eq!(l.get_stat(sys4() >> 8).unwrap().issuer, eosio);
}

#[test]
fn debit_to_zero_removes_the_row_and_credit_recreates_it() {
    let (mut l, _auth, _eosio, alice, _bob) = funded_ledger();
    l.debit(alice, asset(500, sys4())).unwrap();
    assert!(l.get_balance(alice, sys4() >> 8).is_none());
    l.credit(alice, asset(70, sys4()), alice, true).unwrap();
    assert_eq!(l.get_balance(alice, sys4() >> 8).unwrap().amount, 70);
}

#[test]
fn self_transfer_nets_to_the_same_balance() {
    let (mut l, auth, _eosio, alice, _bob) = funded_ledger();
    l.transfer(&auth, alice, alice, asset(200, sys4())).unwrap();
    assert_eq!(l.get_balance(alice, sys4() >> 8).unwrap().amount, 500);
}

#[test]
fn create_without_authorization_is_denied() {
    let eosio = name_to_u64("eosio");
    let auth = vec![name_to_u64("bob")];
    let mut l = Ledger::new();
    let r = l.create(&auth, eosio, asset(1_000, sys4()));
    assert_eq!(r, Err(LedgerError::AuthorizationDenied));
    assert!(l.get_stat(sys4() >> 8).is_none());
}

#[test]
fn issue_needs_the_issuer_authorization() {
    let eosio = name_to_u64("eosio");
    let alice = name_to_u64("alice");
    let mut l = Ledger::new();
    l.create(&vec![eosio], eosio, asset(1_000, sys4())).unwrap();
    let r = l.issue(&vec![alice], alice, asset(10, sys4()));
    assert_eq!(r, Err(LedgerError::AuthorizationDenied));
}

#[test]
fn transfer_needs_the_sender_authorization() {
    let (mut l, _auth, eosio, alice, bob) = funded_ledger();
    let r = l.transfer(&vec![eosio, bob], alice, bob, asset(10, sys4()));
    assert_eq!(r, Err(LedgerError::AuthorizationDenied));
    assert_eq!(l.get_balance(alice, sys4() >> 8).unwrap().amount, 500);
}

#[test]
fn nonpositive_quantities_are_invalid() {
    let (mut l, auth, _eosio, alice, bob) = funded_ledger();
    assert_eq!(l.issue(&auth, alice, asset(0, sys4())), Err(LedgerError::InvalidAmount));
    assert_eq!(l.issue(&auth, alice, asset(-5, sys4())), Err(LedgerError::InvalidAmount));
    assert_eq!(l.transfer(&auth, alice, bob, asset(0, sys4())), Err(LedgerError::InvalidAmount));
    assert_eq!(l.transfer(&auth, alice, bob, asset(-1, sys4())), Err(LedgerError::InvalidAmount));
}

#[test]
fn issuing_an_unknown_ticker_fails() {
    let (mut l, auth, _eosio, alice, _bob) = funded_ledger();
    let r = l.issue(&auth, alice, asset(10, sym("EOS", 4)));
    assert_eq!(r, Err(LedgerError::UnknownSymbol));
}

#[test]
fn precision_mismatch_is_rejected() {
    let (mut l, auth, _eosio, alice, bob) = funded_ledger();
    // Same ticker, other precision: the stats row is found but the symbol
    // codes differ bit for bit.
    assert_eq!(l.issue(&auth, alice, asset(10, sym("SYS", 2))), Err(LedgerError::PrecisionMismatch));
    assert_eq!(
        l.transfer(&auth, alice, bob, asset(10, sym("SYS", 2))),
        Err(LedgerError::PrecisionMismatch)
    );
}

#[test]
fn supply_overflow_is_detected_before_the_ceiling() {
    let eosio = name_to_u64("eosio");
    let alice = name_to_u64("alice");
    let auth = vec![eosio, alice];
    let mut l = Ledger::new();
    l.create(&auth, eosio, asset(i64::MAX, sys4())).unwrap();
    l.issue(&auth, alice, asset(i64::MAX, sys4())).unwrap();
    let r = l.issue(&auth, alice, asset(1, sys4()));
    assert_eq!(r, Err(LedgerError::SupplyOverflow));
    assert_eq!(l.get_stat(sys4() >> 8).unwrap().supply.amount, i64::MAX);
}

#[test]
fn unknown_balance_on_debit_of_a_stranger() {
    let (mut l, auth, _eosio, alice, _bob) = funded_ledger();
    let stranger = name_to_u64("stranger");
    assert_eq!(l.debit(stranger, asset(1, sys4())), Err(LedgerError::UnknownBalance));
    let auth2 = {
        let mut a = auth.clone();
        a.push(stranger);
        a
    };
    assert_eq!(
        l.transfer(&auth2, stranger, alice, asset(1, sys4())),
        Err(LedgerError::UnknownBalance)
    );
}

#[test]
fn credit_overflow_is_rejected() {
    let alice = name_to_u64("alice");
    let mut l = Ledger::new();
    l.credit(alice, asset(i64::MAX, sys4()), alice, true).unwrap();
    let r = l.credit(alice, asset(1, sys4()), alice, true);
    assert_eq!(r, Err(LedgerError::CreditOverflow));
    assert_eq!(l.get_balance(alice, sys4() >> 8).unwrap().amount, i64::MAX);
    // A negative credit fails the same overflow check.
    let r = l.credit(alice, asset(-1, sys4()), alice, true);
    assert_eq!(r, Err(LedgerError::CreditOverflow));
}

#[test]
fn credit_without_creation_right_fails_on_a_missing_row() {
    let alice = name_to_u64("alice");
    let mut l = Ledger::new();
    let r = l.credit(alice, asset(5, sys4()), alice, false);
    assert_eq!(r, Err(LedgerError::NoBalanceToCredit));
    assert!(l.get_balance(alice, sys4() >> 8).is_none());
}

#[test]
fn balance_helpers_mirror_credit_and_debit() {
    let alice = name_to_u64("alice");
    let mut l = Ledger::new();
    l._add_balance(alice, asset(40, sys4()), alice).unwrap();
    assert_eq!(l.get_balance(alice, sys4() >> 8).unwrap().amount, 40);
    l._sub_balance(alice, asset(15, sys4()), alice).unwrap();
    assert_eq!(l.get_balance(alice, sys4() >> 8).unwrap().amount, 25);
    assert_eq!(
        l._sub_balance(alice, asset(26, sys4()), alice),
        Err(LedgerError::InsufficientBalance)
    );
}

#[test]
fn rejected_transfer_rolls_the_debit_back() {
    let eosio = name_to_u64("eosio");
    let alice = name_to_u64("alice");
    let bob = name_to_u64("bob");
    let auth = vec![eosio, alice, bob];
    let mut l = Ledger::new();
    l.create(&auth, eosio, asset(1_000, sys4())).unwrap();
    l.issue(&auth, alice, asset(100, sys4())).unwrap();
    // Give bob a row of the same ticker at another precision so the credit
    // leg fails after the debit leg went through.
    l.credit(bob, asset(1, sym("SYS", 2)), bob, true).unwrap();
    let r = l.transfer(&auth, alice, bob, asset(30, sys4()));
    assert_eq!(r, Err(LedgerError::PrecisionMismatch));
    assert_eq!(l.get_balance(alice, sys4() >> 8).unwrap().amount, 100);
    assert_eq!(l.get_balance(bob, sys4() >> 8).unwrap().amount, 1);
}

#[test]
fn apply_dispatches_the_whole_scenario() {
    let eosio = name_to_u64("eosio");
    let alice = name_to_u64("alice");
    let bob = name_to_u64("bob");
    let auth = vec![eosio, alice, bob];
    let mut l = Ledger::new();

    let mut create_data: Vec<u8> = Vec::new();
    stream_append_u64(eosio, &mut create_data);
    stream_append_asset(&asset(1_000_000, sys4()), &mut create_data);
    apply(&mut l, &auth, name_to_u64("create"), &create_data).unwrap();

    let mut issue_data: Vec<u8> = Vec::new();
    stream_append_u64(alice, &mut issue_data);
    stream_append_asset(&asset(500, sys4()), &mut issue_data);
    stream_append_bytes(&b"genesis".to_vec(), &mut issue_data);
    apply(&mut l, &auth, name_to_u64("issue"), &issue_data).unwrap();

    let mut transfer_data: Vec<u8> = Vec::new();
    stream_append_u64(alice, &mut transfer_data);
    stream_append_u64(bob, &mut transfer_data);
    stream_append_asset(&asset(200, sys4()), &mut transfer_data);
    stream_append_bytes(&b"rent".to_vec(), &mut transfer_data);
    apply(&mut l, &auth, name_to_u64("transfer"), &transfer_data).unwrap();

    assert_eq!(l.get_balance(alice, sys4() >> 8).unwrap().amount, 300);
    assert_eq!(l.get_balance(bob, sys4() >> 8).unwrap().amount, 200);
    assert_eq!(l.get_stat(sys4() >> 8).unwrap().supply.amount, 500);
}

#[test]
fn apply_rejects_unknown_actions_and_short_data() {
    let auth = vec![name_to_u64("eosio")];
    let mut l = Ledger::new();
    let r = apply(&mut l, &auth, name_to_u64("burn"), &Vec::new());
    assert_eq!(r, Err(LedgerError::UnknownAction));
    let r = apply(&mut l, &auth, name_to_u64("create"), &vec![0u8; 10]);
    assert_eq!(r, Err(LedgerError::MalformedInput));
    let r = apply(&mut l, &auth, name_to_u64("issue"), &vec![0u8; 24]);
    assert_eq!(r, Err(LedgerError::MalformedInput));
    let r = apply(&mut l, &auth, name_to_u64("transfer"), &vec![0u8; 31]);
    assert_eq!(r, Err(LedgerError::MalformedInput));
}

#[test]
fn rejected_issue_leaves_the_supply_unchanged() {
    let eosio = name_to_u64("eosio");
    let bob = name_to_u64("bob");
    let auth = vec![eosio, bob];
    let mut l = Ledger::new();
    l.create(&auth, eosio, asset(1_000, sys4())).unwrap();
    // Bob already holds a row of the same ticker at another precision, so
    // the credit leg fails after every supply check passed.
    l.credit(bob, asset(3, sym("SYS", 2)), bob, true).unwrap();
    let r = l.issue(&auth, bob, asset(10, sys4()));
    assert_eq!(r, Err(LedgerError::PrecisionMismatch));
    assert_eq!(l.get_stat(sys4() >> 8).unwrap().supply.amount, 0);
    assert_eq!(l.get_balance(bob, sys4() >> 8).unwrap().amount, 3);
}
