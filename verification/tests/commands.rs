use payments_engine::aggregate::Envelope;
use payments_engine::command::Handler;
use payments_engine::decimal::Decimal;
use payments_engine::domain::{BankAccountError, Transaction, TransactionEvent, TransactionType};
use payments_engine::repository::{EventSourced, GetError};
use payments_engine::runtime::{HandleError, Service};
use payments_engine::store::{InMemory, Persisted, Streamer, VersionSelect};

fn dec(m: i128, scale: u32) -> Decimal {
    Decimal::from_scaled(m, scale).unwrap()
}

fn deposit_tx(client_id: u16, tx_id: u32, amount: Option<Decimal>) -> Transaction {
    Transaction {
        status: Default::default(),
        client_id,
        tx_id,
        transaction_type: TransactionType::Deposit,
        amount,
    }
}

#[test]
fn it_records_new_account_deposit() {
    let event_store = InMemory::default();
    let mut service = Service::from(EventSourced::from(event_store));

    let tx = deposit_tx(1, 1, Some(dec(10123, 3)));
    service.handle(Envelope::from(tx)).unwrap();

    let recorded = service.repository.store.stream(&1, VersionSelect::All);
    assert_eq!(
        recorded,
        vec![Persisted {
            stream_id: 1,
            version: 1,
            event: Envelope::from(TransactionEvent::WasOpened {
                tx_id: 1,
                account_holder_id: 1,
                transaction: deposit_tx(1, 1, Some(dec(10123, 3))),
            }),
        }]
    );
}

#[test]
fn it_updates_deposit_of_existing_account() {
    let event_store = InMemory::default();
    let mut service = Service::from(EventSourced::from(event_store));

    let opening = deposit_tx(1, 1, Some(dec(10123, 3)));
    service.handle(Envelope::from(opening)).unwrap();

    let second = deposit_tx(1, 2, Some(dec(10123, 3)));
    service.handle(Envelope::from(second)).unwrap();

    let recorded = service.repository.store.stream(&1, VersionSelect::All);
    assert_eq!(recorded.len(), 2);
    assert_eq!(
        recorded[1],
        Persisted {
            stream_id: 1,
            version: 2,
            event: Envelope::from(TransactionEvent::DepositWasRecorded {
                amount: dec(10123, 3),
                transaction: deposit_tx(1, 2, Some(dec(10123, 3))),
            }),
        }
    );
}

#[test]
fn withdrawal_for_unknown_client_is_not_found() {
    let mut service = Service::from(EventSourced::from(InMemory::default()));
    let tx = Transaction {
        status: Default::default(),
        client_id: 7,
        tx_id: 1,
        transaction_type: TransactionType::Withdrawal,
        amount: Some(dec(1, 0)),
    };
    let got = service.handle(Envelope::from(tx));
    assert_eq!(got, Err(HandleError::Get(GetError::NotFound)));
}

#[test]
fn opening_deposit_without_amount_is_rejected() {
    let mut service = Service::from(EventSourced::from(InMemory::default()));
    let got = service.handle(Envelope::from(deposit_tx(1, 1, None)));
    assert_eq!(
        got,
        Err(HandleError::Domain(BankAccountError::NoMoneyDeposited))
    );
    assert!(service
        .repository
        .store
        .stream(&1, VersionSelect::All)
        .is_empty());
}

#[test]
fn opening_deposit_with_negative_amount_is_rejected() {
    let mut service = Service::from(EventSourced::from(InMemory::default()));
    let got = service.handle(Envelope::from(deposit_tx(1, 9, Some(dec(-5, 0)))));
    assert_eq!(
        got,
        Err(HandleError::Domain(
            BankAccountError::NegativeTransactionAttempted(9)
        ))
    );
}

#[test]
fn deposit_exceeding_balance_bound_is_rejected() {
    let mut service = Service::from(EventSourced::from(InMemory::default()));
    // one billion whole units is the balance bound
    service
        .handle(Envelope::from(deposit_tx(1, 1, Some(dec(1_000_000_000, 0)))))
        .unwrap();
    let got = service.handle(Envelope::from(deposit_tx(1, 2, Some(dec(1, 0)))));
    assert_eq!(
        got,
        Err(HandleError::Domain(BankAccountError::NumericOverflow))
    );
    // the failed deposit left no event behind
    assert_eq!(service.repository.store.stream(&1, VersionSelect::All).len(), 1);
}
