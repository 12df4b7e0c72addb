use payments_engine::codec::{fmt_snapshot_row, parse_transaction_row};
use payments_engine::decimal::Decimal;
use payments_engine::domain::{AccountSnapShot, BankAccountRoot};
use payments_engine::repository::{EventSourced, Getter};
use payments_engine::runtime::{Dead, Runtime, Service};
use payments_engine::store::InMemory;

fn dec(m: i128, scale: u32) -> Decimal {
    Decimal::from_scaled(m, scale).unwrap()
}

fn run_rows(rows: &[&[u8]]) -> Runtime<Dead> {
    let service = Service::from(EventSourced::from(InMemory::default()));
    let mut engine = Runtime::new(service);
    for row in rows {
        if let Some(tx) = parse_transaction_row(row) {
            // errors are reported per transaction; processing continues
            let _ = engine.process(tx);
        }
    }
    engine.run()
}

fn snapshot_of(engine: &Runtime<Dead>, id: u16) -> AccountSnapShot {
    let root = engine.svc.repository.get(&id).unwrap();
    BankAccountRoot::from(root).snapshot()
}

#[test]
fn basic() {
    let engine = run_rows(&[
        b"deposit,1,1,1.0",
        b"deposit,2,2,2.0",
        b"deposit,1,3,2.0",
        b"withdrawal,1,4,1.5",
        b"withdrawal,2,5,3.0",
    ]);
    assert_eq!(engine.account_ids(), &vec![1u16, 2u16]);

    let one = snapshot_of(&engine, 1);
    assert_eq!(one.available, dec(15, 1));
    assert_eq!(one.held, dec(0, 0));
    assert_eq!(one.total, dec(15, 1));
    assert!(!one.locked);
    assert_eq!(fmt_snapshot_row(&one), b"1,1.5,0,1.5,false".to_vec());

    // the second withdrawal was rejected for insufficient funds
    let two = snapshot_of(&engine, 2);
    assert_eq!(two.available, dec(2, 0));
    assert_eq!(two.total, dec(2, 0));
    assert!(!two.locked);
}

#[test]
fn dispute_deposit() {
    let engine = run_rows(&[b"deposit,1,1,10.0", b"deposit,1,2,5.0", b"dispute,1,1,"]);
    let one = snapshot_of(&engine, 1);
    assert_eq!(one.available, dec(5, 0));
    assert_eq!(one.held, dec(10, 0));
    assert_eq!(one.total, dec(15, 0));
    assert!(!one.locked);
}

#[test]
fn funds_held() {
    // a resolve releases the held funds back to available
    let engine = run_rows(&[b"deposit,1,1,10.0", b"dispute,1,1,", b"resolve,1,1,"]);
    let one = snapshot_of(&engine, 1);
    assert_eq!(one.available, dec(10, 0));
    assert_eq!(one.held, dec(0, 0));
    assert_eq!(one.total, dec(10, 0));
    assert!(!one.locked);
}

#[test]
fn trigger_locked() {
    let engine = run_rows(&[
        b"deposit,1,1,10.0",
        b"deposit,1,2,5.0",
        b"dispute,1,2,",
        b"chargeback,1,2,",
        b"deposit,1,3,1.0",
    ]);
    let one = snapshot_of(&engine, 1);
    assert_eq!(one.available, dec(10, 0));
    assert_eq!(one.held, dec(0, 0));
    assert_eq!(one.total, dec(10, 0));
    // the chargeback froze the account, so the final deposit was rejected
    assert!(one.locked);
}

#[test]
fn deposit_chargeback() {
    let engine = run_rows(&[b"deposit,1,1,10.0", b"dispute,1,1,", b"chargeback,1,1,"]);
    let one = snapshot_of(&engine, 1);
    assert_eq!(one.available, dec(0, 0));
    assert_eq!(one.held, dec(0, 0));
    assert_eq!(one.total, dec(0, 0));
    assert!(one.locked);
}

#[test]
fn smoke_test() {
    let engine = run_rows(&[
        b"deposit, 1, 1, 5.0",
        b"deposit,1,1,5.0",
        b"dispute,1,99,",
        b"deposit,2,2,1.5",
        b"withdrawal, 1, 3, 0.5",
    ]);
    assert_eq!(engine.account_ids(), &vec![1u16, 2u16]);

    // the duplicate transaction id and the unknown dispute were both rejected
    let one = snapshot_of(&engine, 1);
    assert_eq!(one.available, dec(45, 1));
    assert_eq!(one.held, dec(0, 0));
    assert_eq!(one.total, dec(45, 1));
    assert!(!one.locked);

    let two = snapshot_of(&engine, 2);
    assert_eq!(two.available, dec(15, 1));
    assert!(!two.locked);
}

#[test]
fn duplicate_connector_names_are_rejected() {
    let service = Service::from(EventSourced::from(InMemory::default()));
    let engine = Runtime::new(service);
    let engine = engine.with_connector(String::from("stdin_or_file")).unwrap();
    let err = engine.with_connector(String::from("stdin_or_file"));
    assert!(err.is_err());
}
