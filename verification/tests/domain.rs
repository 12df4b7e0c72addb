use payments_engine::aggregate::{Aggregate, Message};
use payments_engine::decimal::Decimal;
use payments_engine::domain::{Account, BankAccountError, BankAccountRoot, Transaction,
    TransactionEvent, TransactionType};
use payments_engine::repository::{EventSourced, Getter, Saver};
use payments_engine::store::InMemory;

fn dec(m: i128, scale: u32) -> Decimal {
    Decimal::from_scaled(m, scale).unwrap()
}

fn tx(kind: TransactionType, client_id: u16, tx_id: u32, amount: Option<Decimal>) -> Transaction {
    Transaction {
        status: Default::default(),
        client_id,
        tx_id,
        transaction_type: kind,
        amount,
    }
}

#[test]
fn repository_persists_new_aggregate_root() {
    let event_store = InMemory::default();
    let mut account_repository = EventSourced::from(event_store);

    let dpstt = tx(TransactionType::Deposit, 1, 1, Some(dec(1089, 2)));

    match account_repository.get(&dpstt.client_id) {
        Ok(account) => {
            let mut root = BankAccountRoot::from(account);
            root.deposit(dpstt).unwrap();
            let mut inner = root.into_root();
            account_repository.save(&mut inner).unwrap();
        }
        Err(_) => {
            let root = BankAccountRoot::open(dpstt).expect("new account root");
            let mut inner = root.into_root();
            account_repository
                .save(&mut inner)
                .expect("new account version should be saved successfully");
        }
    }

    let root = account_repository
        .get(&dpstt.client_id)
        .expect("account record should have saved");
    assert_eq!(1, root.aggregate.id);
}

#[test]
fn locked_account_rejects_every_command() {
    let mut root = BankAccountRoot::open(tx(TransactionType::Deposit, 1, 1, Some(dec(10, 0))))
        .unwrap();
    root.dispute(tx(TransactionType::Dispute, 1, 1, None)).unwrap();
    root.chargeback(tx(TransactionType::Chargeback, 1, 1, None))
        .unwrap();
    assert!(root.0.aggregate.locked);

    let locked = BankAccountError::LockedAccount { id: 1, tx: 2 };
    let d = tx(TransactionType::Deposit, 1, 2, Some(dec(1, 0)));
    assert_eq!(root.deposit(d), Err(locked));
    let w = tx(TransactionType::Withdrawal, 1, 2, Some(dec(1, 0)));
    assert_eq!(root.withdrawal(w), Err(locked));
    let q = tx(TransactionType::Dispute, 1, 2, None);
    assert_eq!(root.dispute(q), Err(locked));
    let r = tx(TransactionType::Resolve, 1, 2, None);
    assert_eq!(root.resolve(r), Err(locked));
    let c = tx(TransactionType::Chargeback, 1, 2, None);
    assert_eq!(root.chargeback(c), Err(locked));
}

#[test]
fn duplicate_transaction_id_is_rejected() {
    let mut root = BankAccountRoot::open(tx(TransactionType::Deposit, 1, 1, Some(dec(5, 0))))
        .unwrap();
    let again = tx(TransactionType::Deposit, 1, 1, Some(dec(5, 0)));
    assert_eq!(
        root.deposit(again),
        Err(BankAccountError::DuplicateTransactionRecipient(1))
    );
    assert_eq!(root.0.aggregate.balance.available, dec(5, 0));
}

#[test]
fn withdrawal_beyond_available_is_rejected() {
    let mut root = BankAccountRoot::open(tx(TransactionType::Deposit, 2, 1, Some(dec(20, 1))))
        .unwrap();
    let w = tx(TransactionType::Withdrawal, 2, 5, Some(dec(30, 1)));
    assert_eq!(root.withdrawal(w), Err(BankAccountError::InsufficientFunds));
}

#[test]
fn dispute_of_unknown_transaction_is_rejected() {
    let mut root = BankAccountRoot::open(tx(TransactionType::Deposit, 1, 1, Some(dec(5, 0))))
        .unwrap();
    let q = tx(TransactionType::Dispute, 1, 99, None);
    assert_eq!(
        root.dispute(q),
        Err(BankAccountError::WrongTransactionRecipient(99))
    );
}

#[test]
fn resolve_of_undisputed_transaction_is_rejected() {
    let mut root = BankAccountRoot::open(tx(TransactionType::Deposit, 1, 1, Some(dec(5, 0))))
        .unwrap();
    let r = tx(TransactionType::Resolve, 1, 1, None);
    assert_eq!(
        root.resolve(r),
        Err(BankAccountError::WrongTransactionRecipient(1))
    );
}

#[test]
fn dispute_moves_available_to_held() {
    let mut root = BankAccountRoot::open(tx(TransactionType::Deposit, 1, 1, Some(dec(100, 1))))
        .unwrap();
    root.deposit(tx(TransactionType::Deposit, 1, 2, Some(dec(50, 1))))
        .unwrap();
    root.dispute(tx(TransactionType::Dispute, 1, 1, None)).unwrap();
    assert_eq!(root.0.aggregate.balance.available, dec(50, 1));
    assert_eq!(root.0.aggregate.balance.held, dec(100, 1));

    let snap = root.snapshot();
    assert_eq!(snap.available, dec(5, 0));
    assert_eq!(snap.held, dec(10, 0));
    assert_eq!(snap.total, dec(15, 0));
    assert!(!snap.locked);
}

#[test]
fn resolve_restores_available_funds() {
    let mut root = BankAccountRoot::open(tx(TransactionType::Deposit, 1, 1, Some(dec(10, 0))))
        .unwrap();
    root.dispute(tx(TransactionType::Dispute, 1, 1, None)).unwrap();
    root.resolve(tx(TransactionType::Resolve, 1, 1, None)).unwrap();
    assert_eq!(root.0.aggregate.balance.available, dec(10, 0));
    assert_eq!(root.0.aggregate.balance.held, dec(0, 0));
}

#[test]
fn disputed_withdrawal_with_insufficient_available_grows_the_total() {
    // dispute of a withdrawal leaves available untouched when it is below
    // the disputed amount, yet still holds the amount
    let mut root = BankAccountRoot::open(tx(TransactionType::Deposit, 1, 1, Some(dec(10, 0))))
        .unwrap();
    root.withdrawal(tx(TransactionType::Withdrawal, 1, 2, Some(dec(8, 0))))
        .unwrap();
    // available is 2, the disputed withdrawal is 8
    root.dispute(tx(TransactionType::Dispute, 1, 2, None)).unwrap();
    assert_eq!(root.0.aggregate.balance.available, dec(2, 0));
    assert_eq!(root.0.aggregate.balance.held, dec(8, 0));
}

#[test]
fn messages_and_aggregates_carry_their_names() {
    let t = tx(TransactionType::Deposit, 1, 1, Some(dec(1, 0)));
    assert_eq!(t.name(), "InboundTransaction");
    let ev = TransactionEvent::WasOpened {
        tx_id: 1,
        account_holder_id: 1,
        transaction: t,
    };
    assert_eq!(ev.name(), "Opened");
    assert_eq!(Account::type_label(), "Account");

    let account = Account::apply(None, ev).unwrap();
    assert_eq!(*account.aggregate_id(), 1);
    assert_eq!(account.balance.available, dec(1, 0));
    assert!(Account::apply(Some(account), ev).is_err());
}
