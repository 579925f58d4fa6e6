use crate::bignum::{
    add_int, div_nat, half_nat, mul_int, rem_int, rem_nat, sub_int, BigInteger, BigNat,
};
use vstd::arithmetic::div_mod::*;
use vstd::arithmetic::power::*;
use vstd::prelude::*;

verus! {

/// The greatest common divisor, by Euclid's recursion: `gcd(a, 0) = a`.
pub open spec fn gcd(a: nat, b: nat) -> nat
    decreases b,
{
    if b == 0 {
        a
    } else {
        gcd(b, a % b)
    }
}

/// `x` is the inverse of `a` modulo `m`, taken in `[0, m)`.
pub open spec fn is_inverse(a: nat, m: nat, x: nat) -> bool {
    x < m && (a * x) % m == 1
}

/// The inverse of `a` modulo `m`, where there is one.
pub open spec fn inverse(a: nat, m: nat) -> Option<nat> {
    if exists|x: nat| is_inverse(a, m, x) {
        Some(choose|x: nat| is_inverse(a, m, x))
    } else {
        None
    }
}

/// `b` to the power `e` modulo `m`, for a signed exponent: nothing for a
/// zero modulus, zero for the modulus one, and for a negative exponent the
/// power of the inverse of `b`, where that inverse exists.
pub open spec fn mod_pow(b: nat, e: int, m: nat) -> Option<nat> {
    if m == 0 {
        None
    } else if m == 1 {
        Some(0)
    } else if e < 0 {
        match inverse(b, m) {
            Some(i) => Some((pow(i as int, (-e) as nat) % (m as int)) as nat),
            None => None,
        }
    } else {
        Some((pow(b as int, e as nat) % (m as int)) as nat)
    }
}

/// The order of the arguments of `gcd` does not matter.
pub proof fn lemma_gcd_commutative(a: nat, b: nat)
    ensures
        gcd(a, b) == gcd(b, a),
{
    if a < b {
        lemma_small_mod(a, b);
        assert(gcd(a, b) == gcd(b, a % b));
    } else if a > b {
        lemma_small_mod(b, a);
        assert(gcd(b, a) == gcd(a, b % a));
    }
}

/// The gcd divides both arguments, and is positive unless both are zero.
pub proof fn lemma_gcd_divides(a: nat, b: nat)
    ensures
        a > 0 || b > 0 ==> gcd(a, b) > 0,
        gcd(a, b) > 0 ==> a % gcd(a, b) == 0 && b % gcd(a, b) == 0,
    decreases b,
{
    if b == 0 {
        if a > 0 {
            lemma_mod_self_0(a as int);
        }
    } else {
        let r = a % b;
        lemma_gcd_divides(b, r);
        let g = gcd(b, r);
        assert(g == gcd(a, b));
        if g > 0 {
            lemma_fundamental_div_mod(a as int, b as int);
            lemma_fundamental_div_mod(b as int, g as int);
            lemma_fundamental_div_mod(r as int, g as int);
            let k = (a / b) * (b / g) + r / g;
            assert(a == g * k) by (nonlinear_arith)
                requires
                    a == b * (a / b) + r,
                    b == g * (b / g),
                    r == g * (r / g),
                    k == (a / b) * (b / g) + r / g,
            ;
            lemma_mod_multiples_basic(k as int, g as int);
            assert(g * k == k * g) by (nonlinear_arith);
        }
    }
}

/// Two inverses of `a` modulo `m` are the same number.
pub proof fn lemma_inverse_unique(a: nat, m: nat, x: nat, y: nat)
    requires
        is_inverse(a, m, x),
        is_inverse(a, m, y),
    ensures
        x == y,
{
    let (ai, mi, xi, yi) = (a as int, m as int, x as int, y as int);
    lemma_mul_mod_noop_right(xi, ai * yi, mi);
    lemma_mul_mod_noop_left(xi * ai, yi, mi);
    assert(xi * (ai * yi) == (ai * xi) * yi) by (nonlinear_arith);
    assert(xi * ai == ai * xi) by (nonlinear_arith);
    lemma_small_mod(x, m);
    lemma_small_mod(y, m);
}

/// An inverse, once found, is the inverse.
pub proof fn lemma_inverse_is(a: nat, m: nat, x: nat)
    requires
        is_inverse(a, m, x),
    ensures
        inverse(a, m) == Some(x),
{
    let c = choose|y: nat| is_inverse(a, m, y);
    lemma_inverse_unique(a, m, x, c);
}

/// A common divisor above one of `a` and `m` leaves `a` without an inverse.
proof fn lemma_no_inverse(a: nat, m: nat, g: nat)
    requires
        g > 1,
        a % g == 0,
        m % g == 0,
    ensures
        inverse(a, m) is None,
{
    if exists|x: nat| is_inverse(a, m, x) {
        let x = choose|x: nat| is_inverse(a, m, x);
        let (ai, mi, gi, xi) = (a as int, m as int, g as int, x as int);
        lemma_fundamental_div_mod(ai * xi, mi);
        lemma_fundamental_div_mod(ai, gi);
        lemma_fundamental_div_mod(mi, gi);
        let k = (ai / gi) * xi - (mi / gi) * ((ai * xi) / mi);
        assert(1 == gi * k) by (nonlinear_arith)
            requires
                ai * xi == mi * ((ai * xi) / mi) + 1,
                ai == gi * (ai / gi),
                mi == gi * (mi / gi),
                k == (ai / gi) * xi - (mi / gi) * ((ai * xi) / mi),
        ;
        assert(false) by (nonlinear_arith)
            requires
                1 == gi * k,
                gi > 1,
        ;
    }
}

/// Greatest common divisor of `a` and `b` by Euclid's algorithm.
pub fn gcd_big(a: &BigNat, b: &BigNat) -> (r: BigNat)
    ensures
        r@ == gcd(a@, b@),
    decreases b@,
{
    if b.is_zero() {
        a.duplicate()
    } else {
        gcd_big(b, &rem_nat(a, b))
    }
}

/// Extended Euclid: `(g, x, y)` with `g` the gcd of `b` and `a` and
/// `a * x + b * y == g`.
fn extended_euclidean(a: &BigNat, b: &BigNat) -> (r: (BigNat, BigInteger, BigInteger))
    ensures
        r.0@ == gcd(b@, a@),
        a@ * r.1@ + b@ * r.2@ == r.0@,
    decreases a@,
{
    if a.is_zero() {
        return (b.duplicate(), BigInteger::from_i64(0), BigInteger::from_i64(1));
    }
    let (g, x1, y1) = extended_euclidean(&rem_nat(b, a), a);
    let q = BigInteger::from_nat(div_nat(b, a));
    let x = sub_int(&y1, &mul_int(&q, &x1));
    proof {
        let (ai, bi) = (a@ as int, b@ as int);
        lemma_fundamental_div_mod(bi, ai);
        assert(ai * x@ + bi * x1@ == g@) by (nonlinear_arith)
            requires
                (bi % ai) * x1@ + ai * y1@ == g@,
                bi == ai * (bi / ai) + bi % ai,
                q@ == bi / ai,
                x@ == y1@ - q@ * x1@,
        ;
    }
    (g, x, x1)
}

/// The inverse of `a` modulo `m` in `[0, m)`, by the extended Euclidean
/// algorithm. There is none for `a = 0`, for `m <= 1` and where `a` and `m`
/// have a common divisor above one.
pub fn modular_inverse_euclidean(a: &BigNat, m: &BigNat) -> (r: Option<BigNat>)
    ensures
        r is Some <==> (m@ > 1 && gcd(a@, m@) == 1),
        r matches Some(v) ==> v@ < m@ && (a@ * v@) % m@ == 1,
        match r {
            Some(v) => inverse(a@, m@) == Some(v@),
            None => inverse(a@, m@) is None,
        },
{
    proof {
        lemma_gcd_commutative(a@, m@);
        lemma_gcd_divides(m@, a@);
    }
    if a.is_zero() {
        proof {
            if m@ > 0 {
                lemma_mod_self_0(m@ as int);
                assert(gcd(a@, m@) == gcd(m@, 0));
                if m@ > 1 {
                    lemma_no_inverse(a@, m@, m@);
                }
            }
            assert forall|x: nat| !is_inverse(a@, m@, x) by {
                if m@ == 1 {
                    lemma_mod_self_0(1);
                }
            }
        }
        return None;
    }
    if !BigNat::from_u64(1).lt(m) {
        proof {
            assert forall|x: nat| !is_inverse(a@, m@, x) by {
                if x < m@ {
                    assert(x == 0);
                    lemma_mod_self_0(1);
                }
            }
        }
        return None;
    }
    let (g, x, _y) = extended_euclidean(a, m);
    if !g.equals(&BigNat::from_u64(1)) {
        proof {
            lemma_no_inverse(a@, m@, g@);
        }
        return None;
    }
    let mi = BigInteger::from_nat(m.duplicate());
    let mut result = rem_int(&x, &mi);
    if result.is_negative() {
        result = add_int(&result, &mi);
    }
    proof {
        let (ai, mm, xi) = (a@ as int, m@ as int, x@);
        let e = xi % mm;
        if xi < 0 {
            let rr = (-xi) % mm;
            lemma_fundamental_div_mod(-xi, mm);
            let qq = (-xi) / mm;
            assert(xi == (-qq - 1) * mm + (mm - rr)) by (nonlinear_arith)
                requires
                    -xi == mm * qq + rr,
            ;
            if rr > 0 {
                lemma_fundamental_div_mod_converse(xi, mm, -((-xi) / mm) - 1, mm - rr);
            } else {
                assert(xi == (-qq) * mm + rr) by (nonlinear_arith)
                    requires
                        -xi == mm * qq + rr,
                        rr == 0,
                ;
                lemma_fundamental_div_mod_converse(xi, mm, -((-xi) / mm), 0);
            }
        }
        assert(result@ == e);
        // a * x + m * y == 1, so a * (x mod m) is 1 modulo m
        lemma_mul_mod_noop_right(ai, xi, mm);
        lemma_mod_multiples_vanish(_y@, ai * xi, mm);
        lemma_small_mod(1, m@);
        assert(is_inverse(a@, m@, result@ as nat));
        lemma_inverse_is(a@, m@, result@ as nat);
    }
    Some(result.magnitude().duplicate())
}

/// One round of square-and-multiply keeps `r * x^e` modulo `m`.
proof fn lemma_square_multiply_step(r: int, x: int, e: nat, m: int)
    requires
        m > 0,
    ensures
        ((if e % 2 == 1 { (r * x) % m } else { r }) * pow((x * x) % m, e / 2)) % m == (r * pow(
            x,
            e,
        )) % m,
{
    let h = e / 2;
    let p = pow(x * x, h);
    lemma_pow_adds(x, 2 * h, e % 2);
    lemma_pow_multiplies(x, 2, h);
    lemma_square_is_pow2(x);
    assert(e == 2 * h + e % 2);
    assert(pow(x, e) == p * pow(x, e % 2));
    lemma_pow_mod_noop(x * x, h, m);
    let pm = pow((x * x) % m, h);
    if e % 2 == 1 {
        lemma_pow1(x);
        lemma_mul_mod_noop_left(r * x, pm, m);
        lemma_mul_mod_noop_right(r * x, pm, m);
        lemma_mul_mod_noop_right(r * x, p, m);
        assert(r * x * p == r * (p * x)) by (nonlinear_arith);
    } else {
        lemma_pow0(x);
        lemma_mul_mod_noop_right(r, pm, m);
        lemma_mul_mod_noop_right(r, p, m);
    }
}

/// `base` to the power `exponent` modulo `modulus`, by square-and-multiply.
pub(crate) fn mod_pow_positive_big(base: &BigNat, exponent: &BigNat, modulus: &BigNat) -> (r: BigNat)
    requires
        modulus@ > 0,
    ensures
        r@ == pow(base@ as int, exponent@) % (modulus@ as int),
        r@ < modulus@,
{
    let one = BigNat::from_u64(1);
    if modulus.equals(&one) {
        proof {
            lemma_mod_self_0(1);
            lemma_mod_bound(pow(base@ as int, exponent@), 1);
        }
        return BigNat::from_u64(0);
    }
    let ghost m = modulus@ as int;
    let mut result = one;
    let mut b = rem_nat(base, modulus);
    let mut e = exponent.duplicate();
    proof {
        lemma_pow_mod_noop(base@ as int, exponent@, m);
    }
    while !e.is_zero()
        invariant
            m == modulus@ as int,
            m > 1,
            result@ < modulus@,
            b@ < modulus@,
            (result@ * pow(b@ as int, e@)) % m == pow(base@ as int, exponent@) % m,
        decreases e@,
    {
        proof {
            lemma_square_multiply_step(result@ as int, b@ as int, e@, m);
        }
        if e.is_odd() {
            result = result.mul_mod(&b, modulus);
        }
        b = b.mul_mod(&b, modulus);
        e = half_nat(&e);
    }
    proof {
        lemma_pow0(b@ as int);
        lemma_small_mod(result@, modulus@);
    }
    result
}

/// `base` to the power `exponent` modulo `modulus`, with a signed exponent: a
/// negative exponent raises the inverse of `base`. `None` for a zero modulus
/// and for a negative exponent where `base` has no inverse.
pub fn mod_pow_big(base: &BigNat, exponent: &BigInteger, modulus: &BigNat) -> (r: Option<BigNat>)
    ensures
        match r {
            Some(v) => mod_pow(base@, exponent@, modulus@) == Some(v@),
            None => mod_pow(base@, exponent@, modulus@) is None,
        },
{
    if modulus.is_zero() {
        return None;
    }
    if modulus.equals(&BigNat::from_u64(1)) {
        return Some(BigNat::from_u64(0));
    }
    if exponent.is_negative() {
        match modular_inverse_euclidean(base, modulus) {
            Some(inv) => Some(mod_pow_positive_big(&inv, exponent.magnitude(), modulus)),
            None => None,
        }
    } else {
        Some(mod_pow_positive_big(base, exponent.magnitude(), modulus))
    }
}

/// Powers of mutual inverses are mutual inverses.
proof fn lemma_pow_of_inverse(a: nat, ia: nat, k: nat, m: nat)
    requires
        m > 1,
        is_inverse(a, m, ia),
    ensures
        is_inverse((pow(a as int, k) % (m as int)) as nat, m, (pow(ia as int, k) % (m as int)) as nat),
        is_inverse((pow(ia as int, k) % (m as int)) as nat, m, (pow(a as int, k) % (m as int)) as nat),
{
    let (ai, ii, mi) = (a as int, ia as int, m as int);
    let (x, y) = (pow(ai, k), pow(ii, k));
    lemma_mul_mod_noop(x, y, mi);
    lemma_pow_distributes(ai, ii, k);
    lemma_pow_mod_noop(ai * ii, k, mi);
    lemma1_pow(k);
    lemma_small_mod(1, m);
    assert((x % mi) * (y % mi) == (y % mi) * (x % mi)) by (nonlinear_arith);
}

/// Inverting a modular power gives the power with the negated exponent:
/// for `a` coprime to `m`, `mod_pow(mod_pow(a, e, m), -1, m)` equals
/// `mod_pow(a, -e, m)` wherever both are defined.
pub proof fn lemma_mod_pow_round_trip(a: nat, e: int, m: nat)
    requires
        gcd(a, m) == 1,
        mod_pow(a, e, m) is Some,
        mod_pow(mod_pow(a, e, m)->0, -1, m) is Some,
        mod_pow(a, -e, m) is Some,
    ensures
        mod_pow(mod_pow(a, e, m)->0, -1, m) == mod_pow(a, -e, m),
{
    if m > 1 {
        let mi = m as int;
        let y = mod_pow(a, e, m)->0;
        lemma_pow1(inverse(y, m)->0 as int);
        lemma_small_mod(inverse(y, m)->0, m);
        if e == 0 {
            lemma_pow0(a as int);
            lemma_small_mod(1, m);
            lemma_inverse_is(y, m, 1);
        } else if e > 0 {
            let ia = inverse(a, m)->0;
            lemma_pow_of_inverse(a, ia, e as nat, m);
            lemma_inverse_is(y, m, (pow(ia as int, e as nat) % mi) as nat);
        } else {
            let ia = inverse(a, m)->0;
            lemma_pow_of_inverse(a, ia, (-e) as nat, m);
            lemma_inverse_is(y, m, (pow(a as int, (-e) as nat) % mi) as nat);
        }
    }
}

} // verus!
