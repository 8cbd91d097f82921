use primer::gcd::gcd;

#[test]
fn test_gcd() {
    assert_eq!(gcd(14, 15), 1);
    assert_eq!(gcd(2 * 3 * 5 * 11 * 17, 3 * 7 * 11 * 13 * 19), 3 * 11);
}

#[test]
fn gcd_of_six_and_nine() {
    assert_eq!(gcd(6, 9), 3);
}

#[test]
fn gcd_of_one_and_one() {
    assert_eq!(gcd(1, 1), 1);
}

#[test]
fn gcd_is_commutative_on_examples() {
    assert_eq!(gcd(12, 18), gcd(18, 12));
    assert_eq!(gcd(7, 100), gcd(100, 7));
    assert_eq!(gcd(12, 18), 6);
}

#[test]
fn gcd_of_a_number_with_itself() {
    assert_eq!(gcd(42, 42), 42);
    assert_eq!(gcd(u64::MAX, u64::MAX), u64::MAX);
}

#[test]
fn gcd_divides_both_and_nothing_larger_does() {
    let (a, b) = (84u64, 360u64);
    let g = gcd(a, b);
    assert_eq!(g, 12);
    assert_eq!(a % g, 0);
    assert_eq!(b % g, 0);
    for d in (g + 1)..=a {
        assert!(a % d != 0 || b % d != 0);
    }
}

#[test]
fn gcd_when_one_divides_the_other() {
    assert_eq!(gcd(5, 35), 5);
    assert_eq!(gcd(35, 5), 5);
    assert_eq!(gcd(1, u64::MAX), 1);
}

#[test]
fn gcd_of_large_values() {
    assert_eq!(gcd(u64::MAX, u64::MAX - 1), 1);
    assert_eq!(gcd(1u64 << 63, 1u64 << 40), 1u64 << 40);
}
