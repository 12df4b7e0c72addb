use payments_engine::decimal::Decimal;

fn dec(m: i128, scale: u32) -> Decimal {
    Decimal::from_scaled(m, scale).unwrap()
}

#[test]
fn arithmetic_is_exact() {
    let a = dec(1, 1);
    let b = dec(2, 1);
    assert_eq!(a.checked_add(b), Some(dec(3, 1)));
    assert_eq!(b.checked_sub(a), Some(dec(1, 1)));
    // one tenth, added ten times, is exactly one
    let mut sum = Decimal::zero();
    for _ in 0..10 {
        sum = sum.checked_add(dec(1, 1)).unwrap();
    }
    assert_eq!(sum, dec(1, 0));
}

#[test]
fn sums_beyond_the_bound_fail() {
    let limit = dec(1_000_000_000, 0);
    assert_eq!(limit.checked_add(dec(1, 28)), None);
    assert_eq!(limit.checked_add(dec(0, 0)), Some(limit));
    let low = dec(-1_000_000_000, 0);
    assert_eq!(low.checked_sub(dec(1, 28)), None);
}

#[test]
fn comparisons_follow_the_values() {
    assert!(dec(1, 1).lt(&dec(2, 1)));
    assert!(dec(2, 1).ge(&dec(2, 1)));
    assert!(dec(-1, 0).is_negative());
    assert!(!dec(0, 0).is_negative());
}

#[test]
fn rounding_is_half_to_even() {
    // exactly half a step rounds to the even multiple
    assert_eq!(dec(5, 5).round_dp4(), dec(0, 4));
    assert_eq!(dec(15, 5).round_dp4(), dec(2, 4));
    assert_eq!(dec(25, 5).round_dp4(), dec(2, 4));
    // above half rounds up, below half rounds down
    assert_eq!(dec(151, 6).round_dp4(), dec(2, 4));
    assert_eq!(dec(149, 6).round_dp4(), dec(1, 4));
    // symmetric for negative values
    assert_eq!(dec(-5, 5).round_dp4(), dec(0, 4));
    assert_eq!(dec(-15, 5).round_dp4(), dec(-2, 4));
    // a value already at four digits is untouched
    assert_eq!(dec(12345, 4).round_dp4(), dec(12345, 4));
}

#[test]
fn from_scaled_rejects_what_cannot_be_held() {
    assert!(Decimal::from_scaled(1, 29).is_none());
    assert!(Decimal::from_scaled(10_000_000_001, 1).is_none());
    assert!(Decimal::from_scaled(1_000_000_000, 0).is_some());
}
