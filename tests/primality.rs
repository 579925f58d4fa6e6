use sigma_protocol::bignum::BigNat;
use sigma_protocol::key_gen::{
    gen_random_prime, is_prime_miller_rabin, miller_rabin_witness, next_probable_prime,
    random_biguint_mod,
};

fn n(v: u64) -> BigNat {
    BigNat::from_u64(v)
}

fn primes_below(limit: usize) -> Vec<u64> {
    let mut composite = vec![false; limit];
    let mut out = Vec::new();
    for i in 2..limit {
        if !composite[i] {
            out.push(i as u64);
            let mut j = i * i;
            while j < limit {
                composite[j] = true;
                j += i;
            }
        }
    }
    out
}

#[test]
fn primes_are_never_rejected() {
    for p in primes_below(5000) {
        assert!(is_prime_miller_rabin(&n(p), 1), "p = {}", p);
    }
    for p in [999_983u64, 999_979, 999_961, 65_537, 7_919] {
        assert!(is_prime_miller_rabin(&n(p), 8), "p = {}", p);
    }
}

#[test]
fn trivial_cases() {
    assert!(!is_prime_miller_rabin(&n(0), 8));
    assert!(!is_prime_miller_rabin(&n(1), 8));
    assert!(is_prime_miller_rabin(&n(2), 8));
    assert!(is_prime_miller_rabin(&n(3), 8));
    assert!(!is_prime_miller_rabin(&n(4), 8));
    assert!(!is_prime_miller_rabin(&n(1_000_000), 8));
}

#[test]
fn witness_rounds() {
    // 561 = 3 * 11 * 17: 2^35 = 263, then 166, 67, 1 modulo 561
    assert!(miller_rabin_witness(&n(561), &n(2)));
    // 9: only 1 and 8 are liars
    for a in 2..8u64 {
        assert!(miller_rabin_witness(&n(9), &n(a)));
    }
    // 2047 = 23 * 89 is a strong pseudoprime to base 2
    assert!(!miller_rabin_witness(&n(2047), &n(2)));
    assert!(miller_rabin_witness(&n(2047), &n(3)));
    for a in 2..11u64 {
        assert!(!miller_rabin_witness(&n(13), &n(a)));
    }
}

#[test]
fn probable_prime_search() {
    assert_eq!(next_probable_prime(&n(89), 3), Some(n(89)));
    assert_eq!(next_probable_prime(&n(9), 3), Some(n(11)));
    assert_eq!(next_probable_prime(&n(90), 5), None);
    assert_eq!(next_probable_prime(&n(9), 0), None);
}

#[test]
fn random_prime_is_odd_and_passes() {
    let p = gen_random_prime(100_000).unwrap();
    assert!(p.is_odd());
    assert!(is_prime_miller_rabin(&p, 16));
}

#[test]
fn random_values_stay_below_the_modulus() {
    for m in [1u64, 2, 11, 1000] {
        for _ in 0..50 {
            assert!(random_biguint_mod(&n(m)).lt(&n(m)));
        }
    }
}

#[test]
fn composites_with_only_witnesses_are_rejected() {
    // every base in [2, 7] is a witness for 9, so one round suffices
    for _ in 0..20 {
        assert!(!is_prime_miller_rabin(&n(9), 1));
    }
    assert!(is_prime_miller_rabin(&n(9), 0));
    assert!(is_prime_miller_rabin(&n(15), 0));
}

#[test]
fn prime_search_reports_nothing_only_without_primes() {
    assert_eq!(next_probable_prime(&n(24), 1), None);
    assert_eq!(next_probable_prime(&n(25), 4), Some(n(29)));
    assert_eq!(next_probable_prime(&n(25), 2), None);
}
