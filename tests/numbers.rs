use sigma_protocol::bignum::{BigInteger, BigNat};
use sigma_protocol::math::{mod_pow_big, modular_inverse_euclidean};

fn n(v: u64) -> BigNat {
    BigNat::from_u64(v)
}

#[test]
fn decimal_round_trip_of_a_large_value() {
    let text = "123456789012345678901234567890";
    let v = BigNat::from_decimal(text.as_bytes()).unwrap();
    assert_eq!(v.to_decimal(), text);
    assert_eq!(n(0).to_decimal(), "0");
    assert_eq!(n(4294967296).to_decimal(), "4294967296");
}

#[test]
fn decimal_reading_refuses_other_text() {
    assert!(BigNat::from_decimal(b"").is_none());
    assert!(BigNat::from_decimal(b"12a4").is_none());
    assert!(BigNat::from_decimal(b"+12").is_none());
    assert!(BigNat::from_decimal(b"1_000").is_none());
    assert_eq!(BigNat::from_decimal(b"007").unwrap(), n(7));
}

#[test]
fn small_value_queries() {
    assert!(n(4294967297).is_odd());
    assert!(!n(4294967296).is_odd());
    assert!(n(0).is_zero());
    assert!(n(3).lt(&n(4)));
    assert!(!n(4).lt(&n(4)));
    assert!(n(4).equals(&n(4)));
    assert_eq!(n(6).mul_mod(&n(7), &n(5)), n(2));
    assert!(BigInteger::from_i64(-3).is_negative());
    assert!(!BigInteger::from_i64(0).is_negative());
    assert_eq!(BigInteger::from_i64(-3).magnitude(), &n(3));
    assert_eq!(BigInteger::from_i64(i64::MIN).magnitude(), &n(9223372036854775808));
}

#[test]
fn inverse_round_trip_of_a_power() {
    // mod_pow(mod_pow(a, e, m), -1, m) == mod_pow(a, -e, m)
    for e in [-7i64, -1, 0, 1, 5, 12] {
        let m = n(23);
        let a = n(10);
        let y = mod_pow_big(&a, &BigInteger::from_i64(e), &m).unwrap();
        let left = mod_pow_big(&y, &BigInteger::from_i64(-1), &m).unwrap();
        let right = mod_pow_big(&a, &BigInteger::from_i64(-e), &m).unwrap();
        assert_eq!(left, right);
    }
    let m = n(9);
    let y = mod_pow_big(&n(2), &BigInteger::from_i64(4), &m).unwrap();
    assert_eq!(y, n(7));
    assert_eq!(mod_pow_big(&y, &BigInteger::from_i64(-1), &m).unwrap(), n(4));
    assert_eq!(mod_pow_big(&n(2), &BigInteger::from_i64(-4), &m).unwrap(), n(4));
}

#[test]
fn inverse_exists_exactly_for_coprime_values() {
    let m = n(12);
    for a in 0..30u64 {
        let coprime = [1u64, 5, 7, 11].contains(&(a % 12));
        let r = modular_inverse_euclidean(&n(a), &m);
        assert_eq!(r.is_some(), coprime, "a = {}", a);
        if let Some(inv) = r {
            assert!(inv.lt(&m));
            assert_eq!(n(a).mul_mod(&inv, &m), n(1));
        }
    }
}

#[test]
fn inverse_with_zero_modulus_is_none() {
    assert!(modular_inverse_euclidean(&n(1), &n(0)).is_none());
    assert!(mod_pow_big(&n(3), &BigInteger::from_i64(2), &n(0)).is_none());
}
