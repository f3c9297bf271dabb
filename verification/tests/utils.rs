use compiler::utils::{checked_next_prime, hash_str, is_prime, next_prime};

#[test]
fn test_is_prime() {
    assert!(is_prime(2));
    assert!(is_prime(5));
    assert!(is_prime(7));

    assert!(!is_prime(0));
    assert!(!is_prime(1));
    assert!(!is_prime(4));
}

#[test]
fn test_next_prime() {
    assert_eq!(next_prime(2), 2);
    assert_eq!(next_prime(4), 5);
    assert_eq!(next_prime(5), 5);
}

#[test]
fn is_prime_agrees_with_trial_division_below_two_thousand() {
    for n in 0..2000_usize {
        let expected = n >= 2 && (2..n).all(|d| n % d != 0);
        assert_eq!(is_prime(n), expected, "n = {}", n);
    }
}

#[test]
fn is_prime_on_squares_of_primes_and_large_numbers() {
    assert!(!is_prime(9));
    assert!(!is_prime(25));
    assert!(!is_prime(49));
    assert!(!is_prime(121));
    assert!(is_prime(3));
    assert!(is_prime(2_147_483_647));
    assert!(!is_prime(2_147_483_649));
    assert!(!is_prime(46_337 * 46_337));
}

#[test]
fn next_prime_is_the_least_prime_not_below() {
    assert_eq!(next_prime(0), 2);
    assert_eq!(next_prime(1), 2);
    assert_eq!(next_prime(3), 3);
    assert_eq!(next_prime(10), 11);
    assert_eq!(next_prime(22), 23);
    assert_eq!(next_prime(24), 29);
    assert_eq!(next_prime(90), 97);
    assert_eq!(next_prime(7920), 7927);
}

#[test]
fn checked_next_prime_finds_the_same_primes() {
    assert_eq!(checked_next_prime(0), Some(2));
    assert_eq!(checked_next_prime(4), Some(5));
    assert_eq!(checked_next_prime(46), Some(47));
    for n in 0..500_usize {
        assert_eq!(checked_next_prime(n), Some(next_prime(n)));
    }
}

#[test]
fn checked_next_prime_stops_before_the_largest_usize() {
    assert_eq!(checked_next_prime(usize::MAX), None);
}

#[test]
fn hash_str_of_short_strings() {
    assert_eq!(hash_str(""), 7);
    assert_eq!(hash_str("a"), 7 * 31 + 97);
    assert_eq!(hash_str("ab"), (7 * 31 + 97) * 31 + 98);
    assert_eq!(hash_str("counter"), 283_740_442_645);
}

#[test]
fn hash_str_wraps_around() {
    let text = "the quick brown fox jumps over the lazy dog";
    let mut expected = 7_u64;
    for c in text.chars() {
        expected = expected.wrapping_mul(31).wrapping_add(u64::from(c));
    }
    assert_eq!(hash_str(text), expected);
    assert!(text.len() > 13);
}

#[test]
fn hash_str_goes_by_unicode_scalar_values() {
    assert_eq!(hash_str("é"), 7 * 31 + 0xe9);
    assert_eq!(hash_str("\u{1F600}"), 7 * 31 + 0x1F600);
}
