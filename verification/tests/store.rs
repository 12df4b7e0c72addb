use payments_engine::aggregate::Envelope;
use payments_engine::decimal::Decimal;
use payments_engine::domain::{Transaction, TransactionEvent, TransactionType};
use payments_engine::repository::{EventSourced, Getter, Saver};
use payments_engine::store::{AppendError, Appender, Check, ConflictError, InMemory, Persisted,
    Streamer, VersionSelect};

fn dec(m: i128, scale: u32) -> Decimal {
    Decimal::from_scaled(m, scale).unwrap()
}

fn event(tx_id: u32) -> Envelope<TransactionEvent> {
    Envelope::from(TransactionEvent::DepositWasRecorded {
        amount: dec(1, 0),
        transaction: Transaction {
            status: Default::default(),
            client_id: 1,
            tx_id,
            transaction_type: TransactionType::Deposit,
            amount: Some(dec(1, 0)),
        },
    })
}

#[test]
fn it_works() {
    let mut event_store = InMemory::default();
    let events = vec![event(1), event(2), event(3)];

    let new_event_stream_version = event_store
        .append(1, Check::MustBe(0), events.clone())
        .expect("append should not fail");

    let expected_version = events.len() as u64;
    assert_eq!(expected_version, new_event_stream_version);

    let expected_events: Vec<_> = events
        .into_iter()
        .enumerate()
        .map(|(i, event)| Persisted {
            stream_id: 1,
            version: (i as u64) + 1,
            event,
        })
        .collect();

    let event_stream = event_store.stream(&1, VersionSelect::All);
    assert_eq!(expected_events, event_stream);
}

#[test]
fn append_with_wrong_expected_version_conflicts_without_mutation() {
    let mut store = InMemory::default();
    store.append(1, Check::MustBe(0), vec![event(1)]).unwrap();

    let got = store.append(1, Check::MustBe(0), vec![event(2)]);
    assert_eq!(
        got,
        Err(AppendError::Conflict(ConflictError {
            expected: 0,
            actual: 1,
        }))
    );
    assert_eq!(store.stream(&1, VersionSelect::All).len(), 1);

    // the matching version succeeds
    let v = store.append(1, Check::MustBe(1), vec![event(2)]).unwrap();
    assert_eq!(v, 2);
}

#[test]
fn append_of_nothing_returns_the_current_version() {
    let mut store = InMemory::default();
    store.append(1, Check::Any, vec![event(1), event(2)]).unwrap();
    let v = store.append(1, Check::MustBe(2), Vec::new()).unwrap();
    assert_eq!(v, 2);
    assert_eq!(store.stream(&1, VersionSelect::All).len(), 2);
}

#[test]
fn stream_from_selects_a_suffix() {
    let mut store = InMemory::default();
    store
        .append(1, Check::Any, vec![event(1), event(2), event(3)])
        .unwrap();
    let tail = store.stream(&1, VersionSelect::From(2));
    assert_eq!(tail.len(), 2);
    assert_eq!(tail[0].version, 2);
    assert_eq!(tail[1].version, 3);
    assert!(store.stream(&1, VersionSelect::From(9)).is_empty());
}

#[test]
fn save_of_clean_root_is_a_no_op() {
    let mut repository = EventSourced::from(InMemory::default());
    let mut root = payments_engine::domain::BankAccountRoot::open(Transaction {
        status: Default::default(),
        client_id: 1,
        tx_id: 1,
        transaction_type: TransactionType::Deposit,
        amount: Some(dec(10, 0)),
    })
    .unwrap()
    .into_root();
    repository.save(&mut root).unwrap();
    assert_eq!(repository.store.stream(&1, VersionSelect::All).len(), 1);

    // the buffer is now empty: saving again must not touch the store
    let mut reloaded = repository.get(&1).unwrap();
    repository.save(&mut reloaded).unwrap();
    assert_eq!(repository.store.stream(&1, VersionSelect::All).len(), 1);
    assert_eq!(reloaded.version(), 1);
}

#[test]
fn rehydration_rebuilds_the_live_state() {
    let mut repository = EventSourced::from(InMemory::default());
    let mut root = payments_engine::domain::BankAccountRoot::open(Transaction {
        status: Default::default(),
        client_id: 1,
        tx_id: 1,
        transaction_type: TransactionType::Deposit,
        amount: Some(dec(10, 0)),
    })
    .unwrap();
    root.deposit(Transaction {
        status: Default::default(),
        client_id: 1,
        tx_id: 2,
        transaction_type: TransactionType::Deposit,
        amount: Some(dec(5, 0)),
    })
    .unwrap();
    let live_available = root.0.aggregate.balance.available;
    let live_version = root.0.version();
    let mut inner = root.into_root();
    repository.save(&mut inner).unwrap();

    let replayed = repository.get(&1).unwrap();
    assert_eq!(replayed.aggregate.balance.available, live_available);
    assert_eq!(replayed.version(), live_version);
    assert_eq!(replayed.aggregate.balance.available, dec(15, 0));
}
