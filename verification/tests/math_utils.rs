use rust_from_python::math_utils::{calculate_factorial, generate_primes, is_prime};

#[test]
fn factorials_saturate() {
    assert_eq!(calculate_factorial(0), 1);
    assert_eq!(calculate_factorial(1), 1);
    assert_eq!(calculate_factorial(5), 120);
    assert_eq!(calculate_factorial(10), 3_628_800);
    assert_eq!(calculate_factorial(20), 2_432_902_008_176_640_000);
    assert_eq!(calculate_factorial(21), u64::MAX);
    assert_eq!(calculate_factorial(100), u64::MAX);
}

#[test]
fn primality() {
    let expected = [(1, false), (2, true), (3, true), (4, false), (17, true), (97, true), (100, false), (7919, true)];
    for (n, p) in expected {
        assert_eq!(is_prime(n), p, "{n}");
    }
    assert!(!is_prime(0));
    assert!(!is_prime(25));
    assert!(!is_prime(49));
    assert!(is_prime(4_294_967_291));
}

#[test]
fn primes_up_to_limit() {
    assert_eq!(generate_primes(10), vec![2, 3, 5, 7]);
    assert_eq!(generate_primes(1), Vec::<u64>::new());
    assert_eq!(generate_primes(2), vec![2]);
    assert_eq!(generate_primes(50).len(), 15);
    assert_eq!(generate_primes(100).len(), 25);
}

#[test]
fn sieve_agrees_with_trial_division() {
    let primes = generate_primes(500);
    for n in 0..=500u64 {
        assert_eq!(primes.contains(&n), is_prime(n), "{n}");
    }
}
