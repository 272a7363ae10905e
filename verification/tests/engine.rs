use transakt::currency::Currency;
use transakt::transaction::{ClientId, Transaction, TransactionId};
use transakt::{Error, Transakt};

#[test]
fn execute_deposit() {
    let mut transakt = Transakt::default();
    // deposit 1.0 into account 1
    transakt
        .execute_transaction(Transaction::Deposit {
            client: ClientId::new(1),
            tx: TransactionId::new(1),
            amount: Currency::new(1, 0).unwrap(),
            disputed: false,
        })
        .unwrap();
    // account 1 should have 1.0
    assert_eq!(transakt.accounts_count(), 1);
    let account = transakt.get_account(ClientId::new(1)).unwrap();
    assert_eq!(account.available(), &Currency::new(1, 0).unwrap());
    // deposit 1.0 into account 1
    transakt
        .execute_transaction(Transaction::Deposit {
            client: ClientId::new(1),
            tx: TransactionId::new(2),
            amount: Currency::new(1, 0).unwrap(),
            disputed: false,
        })
        .unwrap();
    // account 1 should have 2.0
    assert_eq!(transakt.accounts_count(), 1);
    let account = transakt.get_account(ClientId::new(1)).unwrap();
    assert_eq!(account.available(), &Currency::new(2, 0).unwrap());
    // deposit 0.1 into account 2
    transakt
        .execute_transaction(Transaction::Deposit {
            client: ClientId::new(2),
            tx: TransactionId::new(3),
            amount: Currency::new(0, 1000).unwrap(),
            disputed: false,
        })
        .unwrap();
    // account 1 should have 2, account 2 should have 0.1
    assert_eq!(transakt.accounts_count(), 2);
    let account = transakt.get_account(ClientId::new(1)).unwrap();
    assert_eq!(account.available(), &Currency::new(2, 0).unwrap());
    let account = transakt.get_account(ClientId::new(2)).unwrap();
    assert_eq!(account.available(), &Currency::new(0, 1000).unwrap());
}

#[test]
fn execute_withdraw() {
    // fund account 1 with 2.0
    let mut transakt = Transakt::default();
    transakt
        .execute_transaction(Transaction::Deposit {
            client: ClientId::new(1),
            tx: TransactionId::new(1),
            amount: Currency::new(2, 0).unwrap(),
            disputed: false,
        })
        .unwrap();
    assert_eq!(transakt.accounts_count(), 1);
    let account = transakt.get_account(ClientId::new(1)).unwrap();
    // withdraw 1.0 from account 1
    assert_eq!(account.available(), &Currency::new(2, 0).unwrap());
    transakt
        .execute_transaction(Transaction::Withdrawal {
            client: ClientId::new(1),
            tx: TransactionId::new(2),
            amount: Currency::new(1, 0).unwrap(),
        })
        .unwrap();
    // account 1 should have 1.0
    assert_eq!(transakt.accounts_count(), 1);
    let account = transakt.get_account(ClientId::new(1)).unwrap();
    assert_eq!(account.available(), &Currency::new(1, 0).unwrap());
    // withdraw 0.05 from account 1
    transakt
        .execute_transaction(Transaction::Withdrawal {
            client: ClientId::new(1),
            tx: TransactionId::new(3),
            amount: Currency::new(0, 500).unwrap(),
        })
        .unwrap();
    // account 1 should have 0.95
    assert_eq!(transakt.accounts_count(), 1);
    let account = transakt.get_account(ClientId::new(1)).unwrap();
    assert_eq!(account.available(), &Currency::new(0, 9500).unwrap());
}

#[test]
fn execute_dispute() {
    // fund account 1 with 2.0
    let mut transakt = Transakt::default();
    transakt
        .execute_transaction(Transaction::Deposit {
            client: ClientId::new(1),
            tx: TransactionId::new(1),
            amount: Currency::new(2, 0).unwrap(),
            disputed: false,
        })
        .unwrap();
    assert_eq!(transakt.accounts_count(), 1);
    let account = transakt.get_account(ClientId::new(1)).unwrap();
    assert_eq!(account.available(), &Currency::new(2, 0).unwrap());
    transakt
        .execute_transaction(Transaction::Dispute {
            client: ClientId::new(1),
            tx: TransactionId::new(1),
        })
        .unwrap();
    // the deposit is held in full
    assert_eq!(transakt.accounts_count(), 1);
    let account = transakt.get_account(ClientId::new(1)).unwrap();
    assert_eq!(account.available(), &Currency::new(0, 0).unwrap());
    assert_eq!(account.held(), &Currency::new(2, 0).unwrap());
    assert_eq!(account.total(), Currency::new(2, 0).ok());
    // a withdrawal of 0.05 now fails and changes nothing
    transakt
        .execute_transaction(Transaction::Withdrawal {
            client: ClientId::new(1),
            tx: TransactionId::new(2),
            amount: Currency::new(0, 500).unwrap(),
        })
        .unwrap_err();
    let account = transakt.get_account(ClientId::new(1)).unwrap();
    assert_eq!(account.available(), &Currency::new(0, 0).unwrap());
    assert_eq!(account.held(), &Currency::new(2, 0).unwrap());
    assert_eq!(account.total(), Currency::new(2, 0).ok());
}

#[test]
fn execute_resolve() {
    // fund account 1 with 2.0
    let mut transakt = Transakt::default();
    transakt
        .execute_transaction(Transaction::Deposit {
            client: ClientId::new(1),
            tx: TransactionId::new(1),
            amount: Currency::new(2, 0).unwrap(),
            disputed: false,
        })
        .unwrap();
    assert_eq!(transakt.accounts_count(), 1);
    let account = transakt.get_account(ClientId::new(1)).unwrap();
    assert_eq!(account.available(), &Currency::new(2, 0).unwrap());
    transakt
        .execute_transaction(Transaction::Dispute {
            client: ClientId::new(1),
            tx: TransactionId::new(1),
        })
        .unwrap();
    // the deposit is held in full
    assert_eq!(transakt.accounts_count(), 1);
    let account = transakt.get_account(ClientId::new(1)).unwrap();
    assert_eq!(account.available(), &Currency::new(0, 0).unwrap());
    assert_eq!(account.held(), &Currency::new(2, 0).unwrap());
    assert_eq!(account.total(), Currency::new(2, 0).ok());
    // the resolve restores the balances exactly
    transakt
        .execute_transaction(Transaction::Resolve {
            client: ClientId::new(1),
            tx: TransactionId::new(1),
        })
        .unwrap();
    let account = transakt.get_account(ClientId::new(1)).unwrap();
    assert_eq!(account.available(), &Currency::new(2, 0).unwrap());
    assert_eq!(account.held(), &Currency::new(0, 0).unwrap());
    assert_eq!(account.total(), Currency::new(2, 0).ok());
}

#[test]
fn execute_chargeback() {
    // fund account 1 with 2.0
    let mut transakt = Transakt::default();
    transakt
        .execute_transaction(Transaction::Deposit {
            client: ClientId::new(1),
            tx: TransactionId::new(1),
            amount: Currency::new(2, 0).unwrap(),
            disputed: false,
        })
        .unwrap();
    assert_eq!(transakt.accounts_count(), 1);
    let account = transakt.get_account(ClientId::new(1)).unwrap();
    assert_eq!(account.available(), &Currency::new(2, 0).unwrap());
    transakt
        .execute_transaction(Transaction::Dispute {
            client: ClientId::new(1),
            tx: TransactionId::new(1),
        })
        .unwrap();
    // the deposit is held in full
    assert_eq!(transakt.accounts_count(), 1);
    let account = transakt.get_account(ClientId::new(1)).unwrap();
    assert_eq!(account.available(), &Currency::new(0, 0).unwrap());
    assert_eq!(account.held(), &Currency::new(2, 0).unwrap());
    assert_eq!(account.total(), Currency::new(2, 0).ok());
    // the chargeback removes the held funds and locks the account
    transakt
        .execute_transaction(Transaction::Chargeback {
            client: ClientId::new(1),
            tx: TransactionId::new(1),
        })
        .unwrap();
    let account = transakt.get_account(ClientId::new(1)).unwrap();
    assert_eq!(account.available(), &Currency::new(0, 0).unwrap());
    assert_eq!(account.held(), &Currency::new(0, 0).unwrap());
    assert_eq!(account.total(), Currency::new(0, 0).ok());
    assert!(account.is_locked());
}

#[test]
fn deposit_then_withdraw_leaves_difference() {
    let mut transakt = Transakt::default();
    transakt
        .execute_transaction(Transaction::Deposit {
            client: ClientId::new(1),
            tx: TransactionId::new(1),
            amount: Currency::new(2, 0).unwrap(),
            disputed: false,
        })
        .unwrap();
    transakt
        .execute_transaction(Transaction::Withdrawal {
            client: ClientId::new(1),
            tx: TransactionId::new(2),
            amount: Currency::new(0, 5000).unwrap(),
        })
        .unwrap();
    let account = transakt.get_account(ClientId::new(1)).unwrap();
    assert_eq!(account.available(), &Currency::new(1, 5000).unwrap());
}

#[test]
fn duplicate_transaction_rejected() {
    let mut transakt = Transakt::default();
    transakt
        .execute_transaction(Transaction::Deposit {
            client: ClientId::new(1),
            tx: TransactionId::new(1),
            amount: Currency::new(1, 0).unwrap(),
            disputed: false,
        })
        .unwrap();
    let err = transakt
        .execute_transaction(Transaction::Deposit {
            client: ClientId::new(1),
            tx: TransactionId::new(1),
            amount: Currency::new(1, 0).unwrap(),
            disputed: false,
        })
        .unwrap_err();
    assert_eq!(err, Error::DuplicateTransaction(TransactionId::new(1)));
    // the second deposit had no effect
    let account = transakt.get_account(ClientId::new(1)).unwrap();
    assert_eq!(account.available(), &Currency::new(1, 0).unwrap());
}

#[test]
fn locked_account_rejects_deposit_and_withdrawal() {
    let mut transakt = Transakt::default();
    transakt
        .execute_transaction(Transaction::Deposit {
            client: ClientId::new(1),
            tx: TransactionId::new(1),
            amount: Currency::new(2, 0).unwrap(),
            disputed: false,
        })
        .unwrap();
    transakt
        .execute_transaction(Transaction::Dispute {
            client: ClientId::new(1),
            tx: TransactionId::new(1),
        })
        .unwrap();
    transakt
        .execute_transaction(Transaction::Chargeback {
            client: ClientId::new(1),
            tx: TransactionId::new(1),
        })
        .unwrap();
    let err = transakt
        .execute_transaction(Transaction::Deposit {
            client: ClientId::new(1),
            tx: TransactionId::new(2),
            amount: Currency::new(1, 0).unwrap(),
            disputed: false,
        })
        .unwrap_err();
    assert_eq!(err, Error::AccountLocked);
    let err = transakt
        .execute_transaction(Transaction::Withdrawal {
            client: ClientId::new(1),
            tx: TransactionId::new(3),
            amount: Currency::new(1, 0).unwrap(),
        })
        .unwrap_err();
    assert_eq!(err, Error::AccountLocked);
}

#[test]
fn withdrawal_from_unknown_client_fails_with_insufficient_funds() {
    let mut transakt = Transakt::default();
    let err = transakt
        .execute_transaction(Transaction::Withdrawal {
            client: ClientId::new(9),
            tx: TransactionId::new(1),
            amount: Currency::new(1, 0).unwrap(),
        })
        .unwrap_err();
    assert_eq!(err, Error::InsufficientFunds);
    // the empty account was still created
    assert_eq!(transakt.accounts_count(), 1);
    let account = transakt.get_account(ClientId::new(9)).unwrap();
    assert_eq!(account.available(), &Currency::new(0, 0).unwrap());
}

#[test]
fn double_dispute_rejected() {
    let mut transakt = Transakt::default();
    transakt
        .execute_transaction(Transaction::Deposit {
            client: ClientId::new(1),
            tx: TransactionId::new(1),
            amount: Currency::new(2, 0).unwrap(),
            disputed: false,
        })
        .unwrap();
    transakt
        .execute_transaction(Transaction::Dispute {
            client: ClientId::new(1),
            tx: TransactionId::new(1),
        })
        .unwrap();
    let err = transakt
        .execute_transaction(Transaction::Dispute {
            client: ClientId::new(1),
            tx: TransactionId::new(1),
        })
        .unwrap_err();
    assert_eq!(err, Error::InvalidTransaction);
    // balances unchanged by the second dispute
    let account = transakt.get_account(ClientId::new(1)).unwrap();
    assert_eq!(account.available(), &Currency::new(0, 0).unwrap());
    assert_eq!(account.held(), &Currency::new(2, 0).unwrap());
}

#[test]
fn resolve_without_dispute_rejected() {
    let mut transakt = Transakt::default();
    transakt
        .execute_transaction(Transaction::Deposit {
            client: ClientId::new(1),
            tx: TransactionId::new(1),
            amount: Currency::new(2, 0).unwrap(),
            disputed: false,
        })
        .unwrap();
    let err = transakt
        .execute_transaction(Transaction::Resolve {
            client: ClientId::new(1),
            tx: TransactionId::new(1),
        })
        .unwrap_err();
    assert_eq!(err, Error::InvalidTransaction);
}

#[test]
fn chargeback_without_dispute_rejected() {
    let mut transakt = Transakt::default();
    transakt
        .execute_transaction(Transaction::Deposit {
            client: ClientId::new(1),
            tx: TransactionId::new(1),
            amount: Currency::new(2, 0).unwrap(),
            disputed: false,
        })
        .unwrap();
    let err = transakt
        .execute_transaction(Transaction::Chargeback {
            client: ClientId::new(1),
            tx: TransactionId::new(1),
        })
        .unwrap_err();
    assert_eq!(err, Error::InvalidTransaction);
    let account = transakt.get_account(ClientId::new(1)).unwrap();
    assert!(!account.is_locked());
}

#[test]
fn dispute_of_unknown_transaction_is_a_noop() {
    let mut transakt = Transakt::default();
    transakt
        .execute_transaction(Transaction::Dispute {
            client: ClientId::new(1),
            tx: TransactionId::new(42),
        })
        .unwrap();
    assert_eq!(transakt.accounts_count(), 0);
}

#[test]
fn dispute_of_withdrawal_is_a_noop() {
    let mut transakt = Transakt::default();
    transakt
        .execute_transaction(Transaction::Deposit {
            client: ClientId::new(1),
            tx: TransactionId::new(1),
            amount: Currency::new(2, 0).unwrap(),
            disputed: false,
        })
        .unwrap();
    transakt
        .execute_transaction(Transaction::Withdrawal {
            client: ClientId::new(1),
            tx: TransactionId::new(2),
            amount: Currency::new(1, 0).unwrap(),
        })
        .unwrap();
    transakt
        .execute_transaction(Transaction::Dispute {
            client: ClientId::new(1),
            tx: TransactionId::new(2),
        })
        .unwrap();
    let account = transakt.get_account(ClientId::new(1)).unwrap();
    assert_eq!(account.available(), &Currency::new(1, 0).unwrap());
    assert_eq!(account.held(), &Currency::new(0, 0).unwrap());
}

#[test]
fn deposit_overflow_rejected() {
    let mut transakt = Transakt::default();
    let max = Currency::new(1_844_674_407_370_955, 1615).unwrap();
    transakt
        .execute_transaction(Transaction::Deposit {
            client: ClientId::new(1),
            tx: TransactionId::new(1),
            amount: max,
            disputed: false,
        })
        .unwrap();
    let err = transakt
        .execute_transaction(Transaction::Deposit {
            client: ClientId::new(1),
            tx: TransactionId::new(2),
            amount: Currency::new(0, 1).unwrap(),
            disputed: false,
        })
        .unwrap_err();
    assert_eq!(err, Error::Overflow);
    let account = transakt.get_account(ClientId::new(1)).unwrap();
    assert_eq!(account.available(), &max);
}

#[test]
fn chargeback_after_failed_hold_reports_held_funds_fault() {
    let mut transakt = Transakt::default();
    // deposit 2.0, then withdraw 1.5: available is 0.5, less than the deposit
    transakt
        .execute_transaction(Transaction::Deposit {
            client: ClientId::new(1),
            tx: TransactionId::new(1),
            amount: Currency::new(2, 0).unwrap(),
            disputed: false,
        })
        .unwrap();
    transakt
        .execute_transaction(Transaction::Withdrawal {
            client: ClientId::new(1),
            tx: TransactionId::new(2),
            amount: Currency::new(1, 5000).unwrap(),
        })
        .unwrap();
    // the dispute is recorded but the hold cannot cover the full deposit,
    // so no funds move
    transakt
        .execute_transaction(Transaction::Dispute {
            client: ClientId::new(1),
            tx: TransactionId::new(1),
        })
        .unwrap();
    let account = transakt.get_account(ClientId::new(1)).unwrap();
    assert_eq!(account.available(), &Currency::new(0, 5000).unwrap());
    assert_eq!(account.held(), &Currency::new(0, 0).unwrap());
    // the chargeback then finds too little held
    let err = transakt
        .execute_transaction(Transaction::Chargeback {
            client: ClientId::new(1),
            tx: TransactionId::new(1),
        })
        .unwrap_err();
    assert_eq!(err, Error::InsufficientHeldFunds);
}

#[test]
fn account_report_row() {
    let mut transakt = Transakt::default();
    transakt
        .execute_transaction(Transaction::Deposit {
            client: ClientId::new(7),
            tx: TransactionId::new(1),
            amount: Currency::new(3, 1415).unwrap(),
            disputed: false,
        })
        .unwrap();
    let account = transakt.get_account(ClientId::new(7)).unwrap();
    let row = account.to_row().unwrap();
    assert_eq!(row.client, 7);
    assert_eq!(row.available, "3.1415");
    assert_eq!(row.held, "0.0000");
    assert_eq!(row.total, "3.1415");
    assert!(!row.locked);
}
