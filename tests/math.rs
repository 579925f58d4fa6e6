use sigma_protocol::bignum::{BigInteger, BigNat};
use sigma_protocol::math::{gcd_big, mod_pow_big, modular_inverse_euclidean};

fn n(v: u64) -> BigNat {
    BigNat::from_u64(v)
}

fn big(s: &str) -> BigNat {
    BigNat::from_decimal(s.as_bytes()).unwrap()
}

fn i(v: i64) -> BigInteger {
    BigInteger::from_i64(v)
}

#[test]
fn test_gcd_small_numbers() {
    assert_eq!(gcd_big(&n(12), &n(18)), n(6));
    assert_eq!(gcd_big(&n(17), &n(13)), n(1));
}

#[test]
fn test_gcd_with_zero() {
    assert_eq!(gcd_big(&n(0), &n(15)), n(15));
    assert_eq!(gcd_big(&n(42), &n(0)), n(42));
    assert_eq!(gcd_big(&n(0), &n(0)), n(0));
}

#[test]
fn test_gcd_with_one() {
    assert_eq!(gcd_big(&n(1), &n(12345)), n(1));
    assert_eq!(gcd_big(&n(999), &n(1)), n(1));
}

#[test]
fn test_gcd_equal_numbers() {
    assert_eq!(gcd_big(&n(42), &n(42)), n(42));
    assert_eq!(gcd_big(&n(1), &n(1)), n(1));
}

#[test]
fn test_gcd_large_numbers() {
    let result = gcd_big(&n(123456789), &n(987654321));
    assert_eq!(result, n(9));
    assert_eq!(gcd_big(&n(1_000_000_000), &n(500_000_000)), n(500_000_000));
}

#[test]
fn test_gcd_very_large_numbers() {
    let a = big("123456789012345678901234567890");
    let b = big("987654321098765432109876543210");
    let result = gcd_big(&a, &b);
    let expected = big("9000000000900000000090");
    assert_eq!(result, expected);
}

#[test]
fn test_gcd_prime_numbers() {
    assert_eq!(gcd_big(&n(17), &n(19)), n(1));
    assert_eq!(gcd_big(&n(101), &n(103)), n(1));
}

#[test]
fn test_gcd_commutative() {
    assert_eq!(gcd_big(&n(56), &n(98)), gcd_big(&n(98), &n(56)));
    assert_eq!(gcd_big(&n(12345), &n(67890)), gcd_big(&n(67890), &n(12345)));
}

#[test]
fn test_gcd_associative() {
    let (a, b, c) = (n(12), n(18), n(24));
    let left = gcd_big(&a, &gcd_big(&b, &c));
    let right = gcd_big(&gcd_big(&a, &b), &c);
    assert_eq!(left, right);
    assert_eq!(left, n(6));
}

#[test]
fn test_gcd_multiples() {
    assert_eq!(gcd_big(&n(15), &n(45)), n(15));
    assert_eq!(gcd_big(&n(7), &n(49)), n(7));
}

#[test]
fn test_gcd_from_u64() {
    assert_eq!(gcd_big(&n(18446744073709551615), &n(1)), n(1));
    let a = n(2 * 3 * 5 * 7 * 11 * 13);
    let b = n(3 * 5 * 7 * 17 * 19);
    assert_eq!(gcd_big(&a, &b), n(3 * 5 * 7));
}

#[test]
fn test_mod_pow_positive_exponent() {
    assert_eq!(mod_pow_big(&n(3), &i(4), &n(10)).unwrap(), n(1));
    assert_eq!(mod_pow_big(&n(2), &i(10), &n(100)).unwrap(), n(24));
}

#[test]
fn test_mod_pow_zero_exponent() {
    assert_eq!(mod_pow_big(&n(5), &i(0), &n(7)).unwrap(), n(1));
    assert_eq!(mod_pow_big(&n(0), &i(0), &n(13)).unwrap(), n(1));
}

#[test]
fn test_mod_pow_negative_exponent() {
    assert_eq!(mod_pow_big(&n(3), &i(-1), &n(11)).unwrap(), n(4));
    assert_eq!(mod_pow_big(&n(2), &i(-3), &n(7)).unwrap(), n(1));
}

#[test]
fn test_mod_pow_modulus_one() {
    assert_eq!(mod_pow_big(&n(123), &i(456), &n(1)).unwrap(), n(0));
}

#[test]
fn test_mod_pow_zero_base() {
    assert_eq!(mod_pow_big(&n(0), &i(5), &n(10)).unwrap(), n(0));
    assert!(mod_pow_big(&n(0), &i(-2), &n(10)).is_none());
}

#[test]
fn test_mod_pow_large_numbers() {
    let modulus = n(1000000007);
    let result = mod_pow_big(&n(123456789), &i(100), &modulus).unwrap();
    assert!(result.lt(&modulus));

    let modulus = n(997);
    let result = mod_pow_big(&n(2), &i(1000), &modulus).unwrap();
    assert!(result.lt(&modulus));
}

#[test]
fn test_mod_pow_very_large_numbers() {
    let base = big("123456789012345678901234567890");
    let exponent = BigInteger::from_nat(big("1000"));
    let modulus = big("10000000000000000000000000000000000000000");
    let result = mod_pow_big(&base, &exponent, &modulus).unwrap();
    assert!(result.lt(&modulus));
}

#[test]
fn test_mod_pow_edge_cases() {
    assert_eq!(mod_pow_big(&n(7), &i(1), &n(13)).unwrap(), n(7));
    assert_eq!(mod_pow_big(&n(13), &i(5), &n(13)).unwrap(), n(0));
    assert_eq!(mod_pow_big(&n(20), &i(3), &n(13)).unwrap(), n(5));
}

#[test]
fn test_mod_pow_negative_base_handling() {
    assert_eq!(mod_pow_big(&n(3), &i(-2), &n(11)).unwrap(), n(5));
}

#[test]
fn test_mod_pow_no_modular_inverse() {
    assert!(mod_pow_big(&n(2), &i(-1), &n(4)).is_none());
    assert!(mod_pow_big(&n(6), &i(-1), &n(9)).is_none());
}

#[test]
fn test_mod_pow_fermat_little_theorem() {
    let prime = n(17);
    for a in 1..17u64 {
        if a % 17 != 0 {
            let result = mod_pow_big(&n(a), &i(16), &prime).unwrap();
            assert_eq!(result, n(1));
        }
    }
}

#[test]
fn test_mod_pow_exponent_zero_modulus_one() {
    assert_eq!(mod_pow_big(&n(0), &i(0), &n(1)).unwrap(), n(0));
}

#[test]
fn test_mod_pow_consistency() {
    let base = n(5);
    let modulus = n(13);
    let (m, k) = (3i64, 4i64);
    let pow_m = mod_pow_big(&base, &i(m), &modulus).unwrap();
    let pow_n = mod_pow_big(&base, &i(k), &modulus).unwrap();
    let pow_m_n = mod_pow_big(&base, &i(m + k), &modulus).unwrap();
    let product = pow_m.mul_mod(&pow_n, &modulus);
    assert_eq!(pow_m_n, product);
}

#[test]
fn test_mod_pow_negative_exponent_large() {
    let modulus = n(101);
    let result = mod_pow_big(&n(7), &i(-100), &modulus).unwrap();
    assert!(result.lt(&modulus));
    assert!(n(0).lt(&result));
}

#[test]
fn test_modular_inverse_basic() {
    assert_eq!(modular_inverse_euclidean(&n(3), &n(11)).unwrap(), n(4));
    assert_eq!(modular_inverse_euclidean(&n(7), &n(13)).unwrap(), n(2));
}

#[test]
fn test_modular_inverse_no_solution() {
    assert!(modular_inverse_euclidean(&n(2), &n(4)).is_none());
    assert!(modular_inverse_euclidean(&n(6), &n(9)).is_none());
    assert!(modular_inverse_euclidean(&n(10), &n(15)).is_none());
}

#[test]
fn test_modular_inverse_with_one() {
    assert_eq!(modular_inverse_euclidean(&n(1), &n(7)).unwrap(), n(1));
    assert_eq!(modular_inverse_euclidean(&n(1), &n(100)).unwrap(), n(1));
}

#[test]
fn test_modular_inverse_self_inverse() {
    assert_eq!(modular_inverse_euclidean(&n(1), &n(2)).unwrap(), n(1));
    assert_eq!(modular_inverse_euclidean(&n(12), &n(13)).unwrap(), n(12));
}

#[test]
fn test_modular_inverse_prime_modulus() {
    let prime = n(17);
    for k in 1..17u64 {
        let a = n(k);
        let result = modular_inverse_euclidean(&a, &prime);
        assert!(result.is_some());
        let inv = result.unwrap();
        assert_eq!(a.mul_mod(&inv, &prime), n(1));
    }
}

#[test]
fn test_modular_inverse_composite_modulus() {
    let m = n(15);
    for &k in &[1u64, 2, 4, 7, 8, 11, 13, 14] {
        let a = n(k);
        let result = modular_inverse_euclidean(&a, &m);
        assert!(result.is_some(), "an inverse of {} must exist", k);
        let inv = result.unwrap();
        assert_eq!(a.mul_mod(&inv, &m), n(1));
    }
    for &k in &[3u64, 5, 6, 9, 10, 12] {
        let result = modular_inverse_euclidean(&n(k), &m);
        assert!(result.is_none(), "no inverse of {} may exist", k);
    }
}

#[test]
fn test_modular_inverse_large_numbers() {
    let a = n(123456789);
    let m = n(1000000007);
    let result = modular_inverse_euclidean(&a, &m).unwrap();
    assert_eq!(a.mul_mod(&result, &m), n(1));
    assert!(result.lt(&m));
}

#[test]
fn test_modular_inverse_very_large_numbers() {
    let a = big("123456789012345678901234567890");
    let m = big("123456789012345678901234567891");
    let result = modular_inverse_euclidean(&a, &m).unwrap();
    assert_eq!(a.mul_mod(&result, &m), n(1));
    assert!(result.lt(&m));
}

#[test]
fn test_modular_inverse_edge_cases() {
    // 16 * 16 = 256 = 15 * 17 + 1: 16 is its own inverse modulo 17
    let m = n(17);
    let a = n(16);
    let result = modular_inverse_euclidean(&a, &m);
    assert_eq!(result, Some(n(16)));
    let result = modular_inverse_euclidean(&n(0), &n(7));
    assert!(result.is_none());
}

#[test]
fn test_modular_inverse_modulus_one() {
    assert!(modular_inverse_euclidean(&n(0), &n(1)).is_none());
    assert!(modular_inverse_euclidean(&n(1), &n(1)).is_none());
}

#[test]
fn test_modular_inverse_modulus_two() {
    let m = n(2);
    assert!(modular_inverse_euclidean(&n(0), &m).is_none());
    assert_eq!(modular_inverse_euclidean(&n(1), &m).unwrap(), n(1));
}

#[test]
fn test_modular_inverse_consistency() {
    let a = n(5);
    let m = n(17);
    let inv1 = modular_inverse_euclidean(&a, &m).unwrap();
    let inv2 = modular_inverse_euclidean(&inv1, &m).unwrap();
    assert_eq!(inv2, a);
}

#[test]
fn test_modular_inverse_product_rule() {
    let m = n(23);
    let (a, b) = (n(3), n(5));
    let ab = a.mul_mod(&b, &m);
    let inv_ab = modular_inverse_euclidean(&ab, &m).unwrap();
    let inv_a = modular_inverse_euclidean(&a, &m).unwrap();
    let inv_b = modular_inverse_euclidean(&b, &m).unwrap();
    assert_eq!(inv_ab, inv_a.mul_mod(&inv_b, &m));
}

#[test]
fn test_modular_inverse_large_composite_modulus() {
    let a = n(17);
    let m = n(100);
    let result = modular_inverse_euclidean(&a, &m).unwrap();
    assert_eq!(a.mul_mod(&result, &m), n(1));
    assert!(modular_inverse_euclidean(&n(2), &m).is_none());
}

#[test]
fn test_modular_inverse_random_cases() {
    let cases: Vec<(u64, u64, Option<u64>)> = vec![
        (7, 13, Some(2)),
        (9, 11, Some(5)),
        (4, 7, Some(2)),
        (8, 9, Some(8)),
        (3, 6, None),
        (10, 15, None),
    ];
    for (a, m, expected) in cases {
        let result = modular_inverse_euclidean(&n(a), &n(m));
        match expected {
            Some(inv) => {
                assert!(result.is_some());
                assert_eq!(result.unwrap(), n(inv));
            }
            None => assert!(result.is_none()),
        }
    }
}
