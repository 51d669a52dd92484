use fifo_ledger::amount::Amount;

fn amt(n: i64, d: u64) -> Amount {
    Amount::new(n, d).unwrap()
}

#[test]
fn new_reduces_to_lowest_terms() {
    let a = Amount::new(40, 20).unwrap();
    assert_eq!(a.num, 2);
    assert_eq!(a.den, 1);
    let b = Amount::new(-6, 4).unwrap();
    assert_eq!(b.num, -3);
    assert_eq!(b.den, 2);
}

#[test]
fn new_zero_denominator_is_rejected() {
    assert!(Amount::new(5, 0).is_none());
}

#[test]
fn zero_is_canonical() {
    let z = Amount::zero();
    assert_eq!(z.num, 0);
    assert_eq!(z.den, 1);
    assert!(z.is_zero());
    assert!(!z.is_pos());
    let z2 = Amount::new(0, 7).unwrap();
    assert_eq!(z2, z);
}

#[test]
fn addition_is_exact() {
    let a = amt(1, 3);
    let b = amt(1, 6);
    assert_eq!(a.checked_add(&b).unwrap(), amt(1, 2));
}

#[test]
fn subtraction_is_exact() {
    let a = amt(100, 1);
    let b = amt(40, 1);
    assert_eq!(a.checked_sub(&b).unwrap(), amt(60, 1));
    assert_eq!(b.checked_sub(&a).unwrap(), amt(-60, 1));
}

#[test]
fn multiplication_is_exact() {
    let a = amt(3, 4);
    let b = amt(8, 9);
    assert_eq!(a.checked_mul(&b).unwrap(), amt(2, 3));
}

#[test]
fn division_is_exact() {
    let a = amt(1000, 1);
    let b = amt(10, 1);
    assert_eq!(a.checked_div(&b).unwrap(), amt(100, 1));
    let c = amt(140, 1);
    let d = amt(70, 1);
    assert_eq!(c.checked_div(&d).unwrap(), amt(2, 1));
}

#[test]
fn division_by_zero_is_rejected() {
    let a = amt(5, 1);
    assert!(a.checked_div(&Amount::zero()).is_none());
}

#[test]
fn comparison_is_by_value() {
    assert!(amt(1, 3).lt(&amt(1, 2)));
    assert!(!amt(1, 2).lt(&amt(1, 2)));
    assert!(amt(-1, 2).lt(&Amount::zero()));
}

#[test]
fn overflow_returns_none() {
    let big = amt(i64::MAX, 1);
    assert!(big.checked_add(&amt(1, 1)).is_none());
    assert!(big.checked_mul(&amt(2, 1)).is_none());
}
