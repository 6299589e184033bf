use gift_ledger::ledger::{LedgerError, Support};
use gift_ledger::table::BalanceEntry;

fn ntoy(near_amount: u128) -> u128 {
    near_amount * 10u128.pow(24)
}

fn s(v: &str) -> String {
    v.to_string()
}

#[test]
fn deposit_test() {
    let mut contract = Support::default();
    contract.deposit(s("carol_near"), ntoy(10)).unwrap();
    assert_eq!(contract.get_deposit(s("carol_near")), ntoy(10));
}

#[test]
fn set_gift_test() {
    let mut contract = Support::default();
    contract.deposit(s("carol_near"), ntoy(10)).unwrap();
    let transfer = contract
        .send_gift(s("carol_near"), s("12345"), ntoy(4), ntoy(10))
        .unwrap();
    assert_eq!(transfer.recipient, s("12345"));
    assert_eq!(transfer.amount, ntoy(4));
    assert_eq!(contract.get_balance(s("12345")), ntoy(4));
}

#[test]
fn deposit_then_read_back() {
    let mut c = Support::default();
    assert!(c.deposit(s("X"), 10).is_ok());
    assert_eq!(c.get_deposit(s("X")), 10);
}

#[test]
fn deposits_accumulate() {
    let mut c = Support::default();
    c.deposit(s("X"), 10).unwrap();
    c.deposit(s("X"), 7).unwrap();
    c.deposit(s("Z"), 1).unwrap();
    assert_eq!(c.get_deposit(s("X")), 17);
    assert_eq!(c.get_deposit(s("Z")), 1);
}

#[test]
fn zero_deposit_keeps_balance() {
    let mut c = Support::default();
    c.deposit(s("X"), 0).unwrap();
    assert_eq!(c.get_deposit(s("X")), 0);
}

#[test]
fn gift_from_pool_moves_amount() {
    let mut c = Support::default();
    c.deposit(s("X"), 10).unwrap();
    let t = c.send_gift(s("X"), s("R"), 4, 0).unwrap();
    assert_eq!(t.recipient, s("R"));
    assert_eq!(t.amount, 4);
    assert_eq!(c.get_deposit(s("X")), 6);
    assert_eq!(c.get_balance(s("R")), 4);
}

#[test]
fn gift_of_whole_pool_leaves_zero() {
    let mut c = Support::default();
    c.deposit(s("X"), 10).unwrap();
    c.send_gift(s("X"), s("R"), 10, 0).unwrap();
    c.send_gift(s("X"), s("R"), 0, 0).unwrap();
    assert_eq!(c.get_deposit(s("X")), 0);
    assert_eq!(c.get_balance(s("R")), 10);
}

#[test]
fn attached_value_covers_shortfall() {
    let mut c = Support::default();
    let t = c.send_gift(s("Y"), s("R"), 5, 5).unwrap();
    assert_eq!(t.recipient, s("R"));
    assert_eq!(t.amount, 5);
    assert_eq!(c.get_deposit(s("Y")), 0);
    assert_eq!(c.get_balance(s("R")), 0);
}

#[test]
fn shortfall_replaces_pooled_balance() {
    let mut c = Support::default();
    c.deposit(s("Y"), 3).unwrap();
    c.deposit(s("W"), 2).unwrap();
    c.send_gift(s("W"), s("R"), 2, 0).unwrap();
    let before = c.get_balance(s("R"));
    assert_eq!(before, 2);
    c.send_gift(s("Y"), s("R"), 5, 9).unwrap();
    assert_eq!(c.get_deposit(s("Y")), 4);
    assert_eq!(c.get_balance(s("R")), before);
}

#[test]
fn insufficient_funds_changes_nothing() {
    let mut c = Support::default();
    let r = c.send_gift(s("Y"), s("R"), 5, 3);
    assert!(matches!(r, Err(LedgerError::InsufficientFunds)));
    assert_eq!(c.get_deposit(s("Y")), 0);
    assert_eq!(c.get_balance(s("R")), 0);
}

#[test]
fn insufficient_funds_with_some_pool() {
    let mut c = Support::default();
    c.deposit(s("Y"), 2).unwrap();
    c.deposit(s("W"), 8).unwrap();
    c.send_gift(s("W"), s("R"), 1, 0).unwrap();
    let r = c.send_gift(s("Y"), s("R"), 5, 4);
    assert!(matches!(r, Err(LedgerError::InsufficientFunds)));
    assert_eq!(c.get_deposit(s("Y")), 2);
    assert_eq!(c.get_balance(s("R")), 1);
}

#[test]
fn untouched_identity_reads_zero() {
    let mut c = Support::default();
    assert_eq!(c.get_deposit(s("nobody")), 0);
    assert_eq!(c.get_balance(s("nobody")), 0);
    c.deposit(s("X"), 10).unwrap();
    c.send_gift(s("X"), s("R"), 3, 0).unwrap();
    assert_eq!(c.get_deposit(s("nobody")), 0);
    assert_eq!(c.get_balance(s("nobody")), 0);
    assert_eq!(c.get_deposit(s("X")), c.get_deposit(s("X")));
    assert_eq!(c.get_balance(s("R")), c.get_balance(s("R")));
}

#[test]
fn deposit_overflow_is_rejected() {
    let mut c = Support::default();
    c.deposit(s("X"), u128::MAX).unwrap();
    let r = c.deposit(s("X"), 1);
    assert!(matches!(r, Err(LedgerError::Overflow)));
    assert_eq!(c.get_deposit(s("X")), u128::MAX);
}

#[test]
fn gift_overflow_is_rejected() {
    let mut c = Support::default();
    c.deposit(s("X"), u128::MAX).unwrap();
    c.send_gift(s("X"), s("R"), u128::MAX, 0).unwrap();
    c.deposit(s("X"), 1).unwrap();
    let r = c.send_gift(s("X"), s("R"), 1, 0);
    assert!(matches!(r, Err(LedgerError::Overflow)));
    assert_eq!(c.get_deposit(s("X")), 1);
    assert_eq!(c.get_balance(s("R")), u128::MAX);
}

#[test]
fn balances_stay_separate_per_identity() {
    let mut c = Support::default();
    c.deposit(s("A"), 5).unwrap();
    c.deposit(s("B"), 9).unwrap();
    c.send_gift(s("B"), s("A"), 4, 0).unwrap();
    assert_eq!(c.get_deposit(s("A")), 5);
    assert_eq!(c.get_deposit(s("B")), 5);
    assert_eq!(c.get_balance(s("A")), 4);
    assert_eq!(c.get_balance(s("B")), 0);
}

#[test]
fn entries_round_trip() {
    let mut c = Support::default();
    c.deposit(s("X"), 10).unwrap();
    c.deposit(s("Z"), 3).unwrap();
    c.send_gift(s("X"), s("R"), 4, 0).unwrap();
    let d = c.deposit_entries();
    let g = c.gift_entries();
    assert_eq!(d.len(), 2);
    assert_eq!(g.len(), 1);
    let back = Support::from_entries(d, g);
    assert_eq!(back.get_deposit(s("X")), 6);
    assert_eq!(back.get_deposit(s("Z")), 3);
    assert_eq!(back.get_balance(s("R")), 4);
}

#[test]
fn later_entry_wins_when_rebuilding() {
    let d = vec![
        BalanceEntry { key: s("X"), amount: 1 },
        BalanceEntry { key: s("X"), amount: 8 },
    ];
    let c = Support::from_entries(d, Vec::new());
    assert_eq!(c.get_deposit(s("X")), 8);
    assert_eq!(c.deposit_entries().len(), 1);
    assert_eq!(c.get_balance(s("X")), 0);
}
