use payments_engine::codec::{fmt_dec, fmt_snapshot_row, parse_dec, parse_snapshot_row,
    parse_transaction_row, parse_uint, snapshot_header, split_row, trim_bytes};
use payments_engine::decimal::Decimal;
use payments_engine::domain::{AccountSnapShot, Status, TransactionType};

fn dec(m: i128, scale: u32) -> Decimal {
    Decimal::from_scaled(m, scale).unwrap()
}

#[test]
fn decimal_fields_parse_exactly() {
    assert_eq!(parse_dec(b"1.5"), Some(dec(15, 1)));
    assert_eq!(parse_dec(b"0"), Some(dec(0, 0)));
    assert_eq!(parse_dec(b"10"), Some(dec(10, 0)));
    assert_eq!(parse_dec(b"-0.0001"), Some(dec(-1, 4)));
    assert_eq!(parse_dec(b"2.0000000000000000000000000001"), Some(dec(20000000000000000000000000001, 28)));
    assert_eq!(parse_dec(b"0003.50"), Some(dec(35, 1)));
}

#[test]
fn malformed_decimal_fields_are_rejected() {
    assert_eq!(parse_dec(b""), None);
    assert_eq!(parse_dec(b"-"), None);
    assert_eq!(parse_dec(b"1."), None);
    assert_eq!(parse_dec(b".5"), None);
    assert_eq!(parse_dec(b"1.2.3"), None);
    assert_eq!(parse_dec(b"1,5"), None);
    assert_eq!(parse_dec(b" 1"), None);
    // twenty-nine fractional digits are one too many
    assert_eq!(parse_dec(b"0.00000000000000000000000000001"), None);
    // ten billion whole units are out of the textual range
    assert_eq!(parse_dec(b"10000000000"), None);
    // just below that bound still parses, though commands will reject it
    let big = parse_dec(b"9999999999").unwrap();
    assert_eq!(big.units, 9_999_999_999 * 10_000_000_000_000_000_000_000_000_000);
}

#[test]
fn printing_uses_the_shortest_form() {
    assert_eq!(fmt_dec(dec(15, 1)), b"1.5".to_vec());
    assert_eq!(fmt_dec(dec(0, 0)), b"0".to_vec());
    assert_eq!(fmt_dec(dec(10, 0)), b"10".to_vec());
    assert_eq!(fmt_dec(dec(-25, 4)), b"-0.0025".to_vec());
    assert_eq!(fmt_dec(dec(10050, 4)), b"1.005".to_vec());
}

#[test]
fn printing_then_parsing_is_the_identity() {
    for units in [dec(0, 0), dec(15, 1), dec(-15, 1), dec(12345, 4), dec(999, 2)] {
        let printed = fmt_dec(units);
        assert_eq!(parse_dec(&printed), Some(units));
    }
}

#[test]
fn unsigned_fields_respect_their_bound() {
    assert_eq!(parse_uint(b"65535", 65535), Some(65535));
    assert_eq!(parse_uint(b"65536", 65535), None);
    assert_eq!(parse_uint(b"0", 65535), Some(0));
    assert_eq!(parse_uint(b"", 65535), None);
    assert_eq!(parse_uint(b"1x", 65535), None);
    assert_eq!(parse_uint(b"4294967295", 4294967295), Some(4294967295));
}

#[test]
fn rows_split_on_commas() {
    let fields = split_row(b"a,b,,c");
    assert_eq!(fields.len(), 4);
    assert_eq!(fields[0], b"a".to_vec());
    assert_eq!(fields[1], b"b".to_vec());
    assert_eq!(fields[2], Vec::<u8>::new());
    assert_eq!(fields[3], b"c".to_vec());
}

#[test]
fn fields_are_trimmed_of_blanks() {
    assert_eq!(trim_bytes(b"  1.5\t"), b"1.5".to_vec());
    assert_eq!(trim_bytes(b"deposit"), b"deposit".to_vec());
    assert_eq!(trim_bytes(b"   "), Vec::<u8>::new());
}

#[test]
fn transaction_rows_parse_with_flexible_columns() {
    let t = parse_transaction_row(b"deposit,     1, 1,  1.0").unwrap();
    assert_eq!(t.transaction_type, TransactionType::Deposit);
    assert_eq!(t.client_id, 1);
    assert_eq!(t.tx_id, 1);
    assert_eq!(t.amount, Some(dec(10, 1)));
    assert_eq!(t.status, Status::Settled);

    // a trailing empty amount and a missing amount column both mean none
    let d = parse_transaction_row(b"dispute,    1, 1,").unwrap();
    assert_eq!(d.transaction_type, TransactionType::Dispute);
    assert_eq!(d.amount, None);
    let r = parse_transaction_row(b"resolve,1,1").unwrap();
    assert_eq!(r.transaction_type, TransactionType::Resolve);
    assert_eq!(r.amount, None);

    let w = parse_transaction_row(b"withdrawal,  1, 2,  0.5").unwrap();
    assert_eq!(w.transaction_type, TransactionType::Withdrawal);
    let c = parse_transaction_row(b"chargeback, 1, 1,").unwrap();
    assert_eq!(c.transaction_type, TransactionType::Chargeback);
}

#[test]
fn malformed_transaction_rows_are_rejected() {
    assert_eq!(parse_transaction_row(b"Deposit,1,1,1.0"), None);
    assert_eq!(parse_transaction_row(b"deposit,1,1,1.0,extra"), None);
    assert_eq!(parse_transaction_row(b"deposit,1"), None);
    assert_eq!(parse_transaction_row(b"deposit,65536,1,1.0"), None);
    assert_eq!(parse_transaction_row(b"deposit,1,4294967296,1.0"), None);
    assert_eq!(parse_transaction_row(b"deposit,1,1,abc"), None);
    assert_eq!(parse_transaction_row(b""), None);
}

#[test]
fn snapshot_rows_print_and_parse_back() {
    let snap = AccountSnapShot {
        client: 7,
        available: dec(15, 1),
        held: dec(0, 0),
        total: dec(15, 1),
        locked: false,
    };
    let row = fmt_snapshot_row(&snap);
    assert_eq!(row, b"7,1.5,0,1.5,false".to_vec());
    assert_eq!(parse_snapshot_row(&row), Some(snap));

    let frozen = AccountSnapShot {
        client: 65535,
        available: dec(-10000, 4),
        held: dec(25, 0),
        total: dec(24, 0),
        locked: true,
    };
    let row = fmt_snapshot_row(&frozen);
    assert_eq!(row, b"65535,-1,25,24,true".to_vec());
    assert_eq!(parse_snapshot_row(&row), Some(frozen));
}

#[test]
fn snapshot_header_names_the_columns() {
    assert_eq!(snapshot_header(), "client,available,held,total,locked");
}
