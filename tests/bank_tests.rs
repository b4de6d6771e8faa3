use ledger::bank::{Bank, TransferError, User};

#[test]
fn test_user_creation() {
    let user = User::new("Alice".to_string(), 5000, 1000);
    assert_eq!(user.name, "Alice");
    assert_eq!(user.credit_line, 5000);
    assert_eq!(user.balance, 1000);
}

#[test]
fn test_bank_operations() {
    let mut bank = Bank::new("Rust Bank".to_string(), 500, 1000);
    bank.add_user(User::new("Bob".to_string(), 3000, -200));
    assert_eq!(bank.users.len(), 1);
}

#[test]
fn test_calc_balance() {
    let mut bank = Bank::new("Test Bank".to_string(), 500, 1000);
    bank.add_user(User::new("Alice".to_string(), 5000, 2000));
    bank.add_user(User::new("Bob".to_string(), 3000, -1000));

    let (liabilities, assets) = bank.calc_balance();
    assert_eq!(liabilities, 2000);
    assert_eq!(assets, 1000);
}

#[test]
fn test_transfer_funds() {
    let mut bank = Bank::new("Test Bank".to_string(), 0, 0);
    bank.add_user(User::new("Alice".to_string(), 5000, 2000));
    bank.add_user(User::new("Bob".to_string(), 3000, -500));

    bank.transfer_funds("Alice", "Bob", 500).unwrap();
    assert_eq!(bank.users[0].balance, 1500);
    assert_eq!(bank.users[1].balance, 0);

    assert!(bank.transfer_funds("Alice", "Bob", 2000).is_err());
}

#[test]
fn test_accrue_interest() {
    let mut bank = Bank::new("Test Bank".to_string(), 500, 1000);
    bank.add_user(User::new("Alice".to_string(), 10000, 2000));
    bank.add_user(User::new("Bob".to_string(), 10000, -1000));

    bank.accrue_interest();
    assert_eq!(bank.users[0].balance, 2200);
    assert_eq!(bank.users[1].balance, -1050);
}

#[test]
fn test_merge_bank() {
    let mut bank1 = Bank::new("Bank A".to_string(), 500, 1000);
    bank1.add_user(User::new("Alice".to_string(), 5000, 2000));
    bank1.add_user(User::new("Bob".to_string(), 3000, -500));

    let mut bank2 = Bank::new("Bank B".to_string(), 600, 900);
    bank2.add_user(User::new("Alice".to_string(), 4000, 1000));
    bank2.add_user(User::new("Charlie".to_string(), 2000, 1500));

    bank1.merge_bank(bank2);

    assert_eq!(bank1.users.len(), 3);

    let alice = bank1.users.iter().find(|u| u.name == "Alice").unwrap();
    assert_eq!(alice.balance, 3000);
    assert_eq!(alice.credit_line, 9000);

    let bob = bank1.users.iter().find(|u| u.name == "Bob").unwrap();
    assert_eq!(bob.balance, -500);

    let charlie = bank1.users.iter().find(|u| u.name == "Charlie").unwrap();
    assert_eq!(charlie.balance, 1500);
}

fn two_user_bank() -> Bank {
    let mut bank = Bank::new("Test Bank".to_string(), 0, 0);
    bank.add_user(User::new("Alice".to_string(), 5000, 2000));
    bank.add_user(User::new("Bob".to_string(), 3000, -500));
    bank
}

#[test]
fn transfer_then_insufficient_funds() {
    let mut bank = two_user_bank();
    assert!(bank.transfer_funds("Alice", "Bob", 500).is_ok());
    assert_eq!(bank.users[0].balance, 1500);
    assert_eq!(bank.users[1].balance, 0);
    match bank.transfer_funds("Alice", "Bob", 2000) {
        Err(TransferError::InsufficientFunds(name)) => assert_eq!(name, "Alice"),
        other => panic!("unexpected {:?}", other),
    }
    assert_eq!(bank.users[0].balance, 1500);
    assert_eq!(bank.users[1].balance, 0);
}

#[test]
fn transfer_unknown_sender() {
    let mut bank = two_user_bank();
    match bank.transfer_funds("Zed", "Bob", 1) {
        Err(TransferError::UserNotFound(name)) => assert_eq!(name, "Zed"),
        other => panic!("unexpected {:?}", other),
    }
}

#[test]
fn transfer_unknown_receiver() {
    let mut bank = two_user_bank();
    match bank.transfer_funds("Alice", "Zed", 1) {
        Err(TransferError::UserNotFound(name)) => assert_eq!(name, "Zed"),
        other => panic!("unexpected {:?}", other),
    }
    assert_eq!(bank.users[0].balance, 2000);
}

#[test]
fn transfer_sender_over_credit_line() {
    let mut bank = Bank::new("B".to_string(), 0, 0);
    bank.add_user(User::new("Alice".to_string(), 100, 500));
    bank.add_user(User::new("Bob".to_string(), 1000, 0));
    match bank.transfer_funds("Alice", "Bob", 300) {
        Err(TransferError::CreditLimitExceeded(name)) => assert_eq!(name, "Alice"),
        other => panic!("unexpected {:?}", other),
    }
    assert_eq!(bank.users[0].balance, 500);
    assert_eq!(bank.users[1].balance, 0);
}

#[test]
fn transfer_receiver_over_credit_line() {
    let mut bank = Bank::new("B".to_string(), 0, 0);
    bank.add_user(User::new("Alice".to_string(), 5000, 2000));
    bank.add_user(User::new("Bob".to_string(), 1000, 800));
    match bank.transfer_funds("Alice", "Bob", 500) {
        Err(TransferError::CreditLimitExceeded(name)) => assert_eq!(name, "Bob"),
        other => panic!("unexpected {:?}", other),
    }
    assert_eq!(bank.users[0].balance, 2000);
    assert_eq!(bank.users[1].balance, 800);
}

#[test]
fn transfer_amount_beyond_i64_is_insufficient() {
    let mut bank = two_user_bank();
    match bank.transfer_funds("Alice", "Bob", u64::MAX) {
        Err(TransferError::InsufficientFunds(name)) => assert_eq!(name, "Alice"),
        other => panic!("unexpected {:?}", other),
    }
}

#[test]
fn transfer_conserves_sum() {
    let mut bank = two_user_bank();
    let before = bank.users[0].balance + bank.users[1].balance;
    bank.transfer_funds("Alice", "Bob", 1200).unwrap();
    assert_eq!(bank.users[0].balance, 800);
    assert_eq!(bank.users[1].balance, 700);
    assert_eq!(bank.users[0].balance + bank.users[1].balance, before);
}

#[test]
fn transfers_keep_balances_within_limits() {
    let mut bank = two_user_bank();
    bank.add_user(User::new("Carol".to_string(), 1000, 0));
    let requests = [("Alice", "Bob", 700u64), ("Alice", "Carol", 900), ("Bob", "Carol", 100), ("Alice", "Bob", 5000)];
    for (from, to, amount) in requests {
        let _ = bank.transfer_funds(from, to, amount);
        for u in &bank.users {
            assert!(u.balance.unsigned_abs() <= u.credit_line);
        }
    }
}

#[test]
fn self_transfer_is_a_no_op() {
    let mut bank = two_user_bank();
    assert!(bank.transfer_funds("Alice", "Alice", 1000).is_ok());
    assert_eq!(bank.users[0].balance, 2000);
    assert_eq!(bank.users[1].balance, -500);
}

#[test]
fn duplicate_names_first_match_wins() {
    let mut bank = Bank::new("B".to_string(), 0, 0);
    bank.add_user(User::new("Alice".to_string(), 5000, 1000));
    bank.add_user(User::new("Alice".to_string(), 5000, 3000));
    bank.add_user(User::new("Bob".to_string(), 5000, 0));
    assert_eq!(bank.find_by_name("Alice").unwrap().balance, 1000);
    bank.transfer_funds("Alice", "Bob", 400).unwrap();
    assert_eq!(bank.users[0].balance, 600);
    assert_eq!(bank.users[1].balance, 3000);
    assert_eq!(bank.users[2].balance, 400);
}

#[test]
fn find_by_name_absent() {
    let bank = two_user_bank();
    assert!(bank.find_by_name("Carol").is_none());
    assert_eq!(bank.find_by_name("Bob").unwrap().credit_line, 3000);
}

#[test]
fn accrue_interest_scenario_rates() {
    let mut bank = Bank::new("Test Bank".to_string(), 1000, 500);
    bank.add_user(User::new("Alice".to_string(), 10000, 2000));
    bank.add_user(User::new("Bob".to_string(), 10000, -1000));
    bank.accrue_interest();
    assert_eq!(bank.users[0].balance, 2100);
    assert_eq!(bank.users[1].balance, -1100);
}

#[test]
fn accrue_interest_rounds_half_up() {
    let mut bank = Bank::new("B".to_string(), 1, 1);
    bank.add_user(User::new("A".to_string(), 0, 5000));
    bank.add_user(User::new("B".to_string(), 0, 4999));
    bank.add_user(User::new("C".to_string(), 0, -5000));
    bank.add_user(User::new("D".to_string(), 0, -4999));
    bank.accrue_interest();
    assert_eq!(bank.users[0].balance, 5001);
    assert_eq!(bank.users[1].balance, 4999);
    assert_eq!(bank.users[2].balance, -5001);
    assert_eq!(bank.users[3].balance, -4999);
}

#[test]
fn accrue_interest_may_pass_credit_line() {
    let mut bank = Bank::new("B".to_string(), 0, 10000);
    bank.add_user(User::new("A".to_string(), 100, 100));
    bank.accrue_interest();
    assert_eq!(bank.users[0].balance, 200);
    assert_eq!(bank.users[0].credit_line, 100);
}

#[test]
fn zero_balance_never_accrues() {
    let mut bank = Bank::new("B".to_string(), 9000, 9000);
    bank.add_user(User::new("Zero".to_string(), 10, 0));
    for _ in 0..5 {
        bank.accrue_interest();
        assert_eq!(bank.users[0].balance, 0);
        assert_eq!(bank.users[0].credit_line, 10);
    }
}

#[test]
fn merge_counts_collisions() {
    let mut a = Bank::new("A".to_string(), 0, 0);
    a.add_user(User::new("X".to_string(), 1, 1));
    a.add_user(User::new("Y".to_string(), 1, 1));
    let mut b = Bank::new("B".to_string(), 0, 0);
    b.add_user(User::new("Y".to_string(), 2, -3));
    b.add_user(User::new("Z".to_string(), 1, 0));
    b.add_user(User::new("X".to_string(), 4, 5));
    a.merge_bank(b);
    assert_eq!(a.users.len(), 2 + 3 - 2);
    assert_eq!(a.users[0].balance, 6);
    assert_eq!(a.users[0].credit_line, 5);
    assert_eq!(a.users[1].balance, -2);
    assert_eq!(a.users[1].credit_line, 3);
    assert_eq!(a.users[2].name, "Z");
}

#[test]
fn merge_into_empty_bank() {
    let mut a = Bank::new("A".to_string(), 7, 8);
    let mut b = Bank::new("B".to_string(), 0, 0);
    b.add_user(User::new("Z".to_string(), 1, 0));
    b.add_user(User::new("Z".to_string(), 2, 3));
    a.merge_bank(b);
    assert_eq!(a.users.len(), 1);
    assert_eq!(a.users[0].balance, 3);
    assert_eq!(a.users[0].credit_line, 3);
    assert_eq!(a.name, "A");
    assert_eq!(a.credit_interest, 7);
}

#[test]
fn calc_balance_empty_and_zero() {
    let mut bank = Bank::new("B".to_string(), 0, 0);
    assert_eq!(bank.calc_balance(), (0, 0));
    bank.add_user(User::new("Z".to_string(), 0, 0));
    bank.add_user(User::new("M".to_string(), 0, i64::MIN));
    assert_eq!(bank.calc_balance(), (0, 1u64 << 63));
}

#[test]
fn error_messages_name_the_user() {
    assert_eq!(TransferError::UserNotFound("Ann".to_string()).message(), "User Ann not found");
    assert_eq!(
        TransferError::InsufficientFunds("Ann".to_string()).message(),
        "User Ann has insufficient funds"
    );
    assert_eq!(
        TransferError::CreditLimitExceeded("Ann".to_string()).message(),
        "User Ann would exceed credit line"
    );
}

#[test]
fn merge_scenario_every_field() {
    let mut a = Bank::new("Bank A".to_string(), 0, 0);
    a.add_user(User::new("Alice".to_string(), 5000, 2000));
    a.add_user(User::new("Bob".to_string(), 3000, -500));
    let mut b = Bank::new("Bank B".to_string(), 0, 0);
    b.add_user(User::new("Alice".to_string(), 4000, 1000));
    b.add_user(User::new("Charlie".to_string(), 2000, 1500));
    a.merge_bank(b);
    assert_eq!(a.users.len(), 3);
    assert_eq!(a.users[0], User::new("Alice".to_string(), 9000, 3000));
    assert_eq!(a.users[1], User::new("Bob".to_string(), 3000, -500));
    assert_eq!(a.users[2], User::new("Charlie".to_string(), 2000, 1500));
    assert_eq!(a.name, "Bank A");
}
