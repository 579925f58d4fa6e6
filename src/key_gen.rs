use crate::bignum::{add_nat, half_nat, mul_nat, rem_nat, sub_nat, BigNat};
use crate::math::mod_pow_positive_big;
use crate::primality::{is_prime, lemma_prime_has_no_witness};
use num_bigint::{BigUint, RandBigInt};
use vstd::arithmetic::div_mod::*;
use vstd::arithmetic::power::*;
use vstd::prelude::*;

verus! {

/// How many random bits a drawn value has.
pub const RANDOM_SIZE: u64 = 64;

/// Relies on `RandBigInt::gen_biguint` of num-bigint, drawing from rand's
/// thread-local generator: a value of at most `bits` random bits.
#[verifier::external_body]
fn random_bits(bits: u64) -> (r: BigNat)
    requires
        bits <= 64,
    ensures
        r@ < pow(2, bits as nat),
{
    BigNat::from_digits(rand::thread_rng().gen_biguint(bits).to_u32_digits())
}

/// Relies on `RandBigInt::gen_biguint_range` of num-bigint, drawing from
/// rand's thread-local generator: a value in `[lo, hi)`; it panics unless
/// `lo < hi`.
#[verifier::external_body]
fn random_in_range(lo: &BigNat, hi: &BigNat) -> (r: BigNat)
    requires
        lo@ < hi@,
    ensures
        lo@ <= r@ < hi@,
{
    let lo = BigUint::new(lo.digits().clone());
    let hi = BigUint::new(hi.digits().clone());
    BigNat::from_digits(rand::thread_rng().gen_biguint_range(&lo, &hi).to_u32_digits())
}

/// `x` with every factor two divided out (zero stays zero).
pub open spec fn odd_part(x: nat) -> nat
    decreases x,
{
    if x > 0 && x % 2 == 0 {
        odd_part(x / 2)
    } else {
        x
    }
}

/// How many times two divides `x` (zero for zero).
pub open spec fn two_exponent(x: nat) -> nat
    decreases x,
{
    if x > 0 && x % 2 == 0 {
        1 + two_exponent(x / 2)
    } else {
        0
    }
}

/// The `i`-th value the Miller-Rabin test looks at for base `a`:
/// `a^(t * 2^i) mod n`, where `n - 1 = 2^s * t` with `t` odd.
pub open spec fn mr_term(n: nat, a: nat, i: nat) -> int {
    pow(a as int, (odd_part((n - 1) as nat) * pow(2, i)) as nat) % (n as int)
}

/// `a` shows that `n` is composite: `a^t` is not one and none of
/// `a^t, a^(2t), ..., a^(2^(s-1) t)` is `n - 1` modulo `n`.
pub open spec fn is_composite_witness(n: nat, a: nat) -> bool {
    mr_term(n, a, 0) != 1 && forall|i: nat|
        i < two_exponent((n - 1) as nat) ==> #[trigger] mr_term(n, a, i) != n - 1
}

/// Squaring one term gives the next.
pub(crate) proof fn lemma_mr_term_next(n: nat, a: nat, i: nat)
    requires
        n > 1,
    ensures
        mr_term(n, a, i + 1) == (mr_term(n, a, i) * mr_term(n, a, i)) % (n as int),
{
    let t = odd_part((n - 1) as nat);
    let p = pow(2, i);
    lemma_pow_positive(2, i);
    let u = (t * p) as nat;
    lemma_pow_adds(2, i, 1);
    lemma_pow1(2);
    assert((t * pow(2, i + 1)) as nat == u + u) by (nonlinear_arith)
        requires
            pow(2, i + 1) == p * 2,
            u == t * p,
            p > 0,
    ;
    lemma_pow_adds(a as int, u, u);
    lemma_mul_mod_noop(pow(a as int, u), pow(a as int, u), n as int);
}

/// Once a term is one, every later term is one.
proof fn lemma_mr_term_stays_one(n: nat, a: nat, i: nat, j: nat)
    requires
        n > 1,
        i <= j,
        mr_term(n, a, i) == 1,
    ensures
        mr_term(n, a, j) == 1,
    decreases j - i,
{
    if i < j {
        lemma_mr_term_next(n, a, i);
        lemma_small_mod(1, n);
        lemma_mr_term_stays_one(n, a, i + 1, j);
    }
}

/// One round of the Miller-Rabin test on odd `n > 3` with base `a`: whether
/// `a` shows that `n` is composite.
pub fn miller_rabin_witness(n: &BigNat, a: &BigNat) -> (r: bool)
    requires
        n@ > 3,
        n@ % 2 == 1,
    ensures
        r == is_composite_witness(n@, a@),
{
    let one = BigNat::from_u64(1);
    let two = BigNat::from_u64(2);
    let n1 = sub_nat(n, &one);
    let ghost m1 = n1@;
    let mut t = n1.duplicate();
    let ghost mut s: nat = 0;
    proof {
        lemma_pow0(2);
    }
    while !t.is_odd()
        invariant
            t@ > 0,
            odd_part(m1) == odd_part(t@),
            two_exponent(m1) == s + two_exponent(t@),
            m1 == t@ * pow(2, s),
        decreases t@,
    {
        proof {
            lemma_pow_adds(2, s, 1);
            lemma_pow1(2);
            lemma_fundamental_div_mod(t@ as int, 2);
            assert(m1 == (t@ / 2) * pow(2, s + 1)) by (nonlinear_arith)
                requires
                    m1 == t@ * pow(2, s),
                    pow(2, s + 1) == pow(2, s) * 2,
                    t@ == 2 * (t@ / 2) + t@ % 2,
                    t@ % 2 == 0,
            ;
        }
        t = half_nat(&t);
        proof {
            s = s + 1;
        }
    }
    let ghost tt = t@;
    let mut x = mod_pow_positive_big(a, &t, n);
    proof {
        lemma_pow0(2);
        assert(x@ == mr_term(n@, a@, 0));
    }
    if x.equals(&one) || x.equals(&n1) {
        return false;
    }
    let mut u = t.duplicate();
    let ghost mut i: nat = 0;
    while mul_nat(&u, &two).lt(&n1)
        invariant
            two@ == 2,
            one@ == 1,
            u@ > 0,
            n1@ == m1,
            m1 == n@ - 1,
            n@ > 3,
            tt == odd_part(m1),
            tt > 0,
            m1 == tt * pow(2, s),
            two_exponent(m1) == s,
            u@ == tt * pow(2, i),
            x@ == mr_term(n@, a@, i),
            i < s,
            mr_term(n@, a@, 0) != 1,
            forall|j: nat| j <= i ==> #[trigger] mr_term(n@, a@, j) != n@ - 1,
        decreases m1 - u@,
    {
        proof {
            lemma_pow_adds(2, i, 1);
            lemma_pow1(2);
            if s <= i + 1 {
                lemma_pow_increases(2, s, i + 1);
                assert(false) by (nonlinear_arith)
                    requires
                        u@ * 2 < m1,
                        u@ == tt * pow(2, i),
                        m1 == tt * pow(2, s),
                        pow(2, i + 1) == pow(2, i) * 2,
                        pow(2, s) <= pow(2, i + 1),
                        tt > 0,
                ;
            }
            lemma_mr_term_next(n@, a@, i);
        }
        let ghost old_u = u@;
        x = x.mul_mod(&x, n);
        u = mul_nat(&u, &two);
        proof {
            assert(x@ == mr_term(n@, a@, i + 1));
            i = i + 1;
            assert(u@ == tt * pow(2, i)) by (nonlinear_arith)
                requires
                    u@ == old_u * 2,
                    old_u == tt * pow(2, (i - 1) as nat),
                    pow(2, i) == pow(2, (i - 1) as nat) * 2,
            ;
        }
        if x.equals(&one) {
            proof {
                assert forall|j: nat| j < s implies #[trigger] mr_term(n@, a@, j) != n@ - 1 by {
                    if j > i {
                        lemma_mr_term_stays_one(n@, a@, i, j);
                    }
                }
            }
            return true;
        }
        if x.equals(&n1) {
            return false;
        }
    }
    proof {
        lemma_pow_adds(2, i, 1);
        lemma_pow1(2);
        if i + 1 < s {
            lemma_pow_increases(2, i + 1, s);
            lemma_pow_strictly_increases(2, i + 1, s);
            assert(false) by (nonlinear_arith)
                requires
                    u@ * 2 >= m1,
                    u@ == tt * pow(2, i),
                    m1 == tt * pow(2, s),
                    pow(2, i + 1) == pow(2, i) * 2,
                    pow(2, i + 1) < pow(2, s),
                    tt > 0,
            ;
        }
    }
    true
}

/// The Miller-Rabin test with `k` rounds, each with a fresh random base in
/// `[2, n - 2]`. Exact on `n <= 3` and on even `n`; for odd `n > 3` it answers
/// `false` only when a drawn base shows that `n` is composite, so it never
/// rejects a prime, and `true` only when no round found a witness (with at
/// least one round, the last base drawn is a non-witness).
pub fn is_prime_miller_rabin(n: &BigNat, k: u8) -> (r: bool)
    ensures
        n@ <= 1 ==> !r,
        n@ == 2 || n@ == 3 ==> r,
        n@ > 3 && n@ % 2 == 0 ==> !r,
        !r && n@ > 3 && n@ % 2 == 1 ==> exists|a: nat|
            2 <= a <= n@ - 2 && #[trigger] is_composite_witness(n@, a),
        r && n@ > 3 && n@ % 2 == 1 && k > 0 ==> exists|a: nat|
            2 <= a <= n@ - 2 && !#[trigger] is_composite_witness(n@, a),
        k == 0 && n@ > 3 && n@ % 2 == 1 ==> r,
        is_prime(n@) ==> r,
{
    let one = BigNat::from_u64(1);
    let two = BigNat::from_u64(2);
    if !one.lt(n) {
        return false;
    }
    if n.equals(&two) || n.equals(&BigNat::from_u64(3)) {
        return true;
    }
    if !n.is_odd() {
        return false;
    }
    let hi = sub_nat(n, &one);
    let mut round: u8 = 0;
    let ghost mut passed: nat = 2;
    while round < k
        invariant
            n@ > 3,
            n@ % 2 == 1,
            two@ == 2,
            hi@ == n@ - 1,
            round > 0 ==> 2 <= passed <= n@ - 2 && !is_composite_witness(n@, passed),
        decreases k - round,
    {
        let a = random_in_range(&two, &hi);
        if miller_rabin_witness(n, &a) {
            proof {
                if is_prime(n@) {
                    lemma_small_mod(a@, n@);
                    lemma_prime_has_no_witness(n@, a@);
                }
            }
            return false;
        }
        proof {
            passed = a@;
        }
        round = round + 1;
    }
    true
}

/// A value of `RANDOM_SIZE` random bits reduced modulo `module`: a value in
/// `[0, module)`.
pub fn random_biguint_mod(module: &BigNat) -> (r: BigNat)
    requires
        module@ > 0,
    ensures
        r@ < module@,
{
    rem_nat(&random_bits(RANDOM_SIZE), module)
}

/// The first value among `start`, `start + 2`, ... (at most `max_attempts`
/// of them) that passes the Miller-Rabin test with eight rounds. Since the
/// test never rejects a prime, it finds the first prime among the candidates
/// whenever there is one, or stops earlier at a probable prime.
pub fn next_probable_prime(start: &BigNat, max_attempts: u64) -> (r: Option<BigNat>)
    ensures
        r matches Some(p) ==> p@ >= start@ && (p@ - start@) % 2 == 0 && p@ < start@ + 2
            * max_attempts && p@ > 1 && (p@ == 2 || p@ % 2 == 1),
        r matches Some(p) ==> p@ <= 3 || exists|a: nat|
            2 <= a <= p@ - 2 && !#[trigger] is_composite_witness(p@, a),
        r matches Some(p) ==> forall|j: nat|
            start@ + 2 * j < p@ ==> !#[trigger] is_prime(start@ + 2 * j),
        r is None ==> forall|j: nat| j < max_attempts ==> !#[trigger] is_prime(start@ + 2 * j),
{
    let two = BigNat::from_u64(2);
    let mut candidate = start.duplicate();
    let mut attempt: u64 = 0;
    while attempt < max_attempts
        invariant
            two@ == 2,
            candidate@ == start@ + 2 * attempt,
            attempt <= max_attempts,
            forall|j: nat| j < attempt ==> !#[trigger] is_prime(start@ + 2 * j),
        decreases max_attempts - attempt,
    {
        if is_prime_miller_rabin(&candidate, 8) {
            return Some(candidate);
        }
        candidate = add_nat(&candidate, &two);
        attempt = attempt + 1;
    }
    None
}

/// A possible first candidate of `gen_random_prime`: an odd value of at
/// most `RANDOM_SIZE` bits, or one more than an even such value.
pub open spec fn odd_start(s: nat) -> bool {
    s % 2 == 1 && s <= pow(2, RANDOM_SIZE as nat)
}

/// A random odd value `s` of at most `RANDOM_SIZE` bits (plus one), then the
/// first probable prime among `s, s + 2, ...`, trying at most `max_attempts`
/// candidates.
pub fn gen_random_prime(max_attempts: u64) -> (r: Option<BigNat>)
    ensures
        r matches Some(p) ==> p@ % 2 == 1 && p@ > 1,
        r matches Some(p) ==> p@ <= 3 || exists|a: nat|
            2 <= a <= p@ - 2 && !#[trigger] is_composite_witness(p@, a),
        r matches Some(p) ==> exists|s: nat|
            #![trigger odd_start(s)]
            odd_start(s) && s <= p@ && p@ < s + 2 * max_attempts && (p@ - s) % 2 == 0
                && forall|j: nat| s + 2 * j < p@ ==> !#[trigger] is_prime(s + 2 * j),
        r is None ==> exists|s: nat|
            #![trigger odd_start(s)]
            odd_start(s) && forall|j: nat| j < max_attempts ==> !#[trigger] is_prime(s + 2 * j),
{
    let mut res = random_bits(RANDOM_SIZE);
    if !res.is_odd() {
        res = add_nat(&res, &BigNat::from_u64(1));
    }
    let r = next_probable_prime(&res, max_attempts);
    proof {
        assert(odd_start(res@));
    }
    r
}

} // verus!
