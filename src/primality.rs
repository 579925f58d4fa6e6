use crate::key_gen::{is_composite_witness, lemma_mr_term_next, mr_term, odd_part, two_exponent};
use crate::math::{gcd, lemma_gcd_commutative, lemma_gcd_divides};
use vstd::arithmetic::div_mod::*;
use vstd::arithmetic::power::*;
use vstd::prelude::*;
use vstd::seq_lib::*;
use vstd::set_lib::*;

verus! {

/// `n` is prime: above one, and no number strictly between one and `n`
/// divides it.
pub open spec fn is_prime(n: nat) -> bool {
    n > 1 && forall|d: nat| 1 < d < n ==> #[trigger] (n % d) != 0
}

/// Bezout coefficients for `gcd(b, a)`, along Euclid's recursion.
proof fn lemma_bezout(a: nat, b: nat) -> (r: (int, int))
    ensures
        a * r.0 + b * r.1 == gcd(b, a),
    decreases a,
{
    if a == 0 {
        (0, 1)
    } else {
        let (x1, y1) = lemma_bezout(b % a, a);
        let (ai, bi) = (a as int, b as int);
        lemma_fundamental_div_mod(bi, ai);
        let x = y1 - (bi / ai) * x1;
        assert(ai * x + bi * x1 == gcd(b, a)) by (nonlinear_arith)
            requires
                (bi % ai) * x1 + ai * y1 == gcd(a, b % a),
                gcd(b, a) == gcd(a, b % a),
                bi == ai * (bi / ai) + bi % ai,
                x == y1 - (bi / ai) * x1,
        ;
        (x, x1)
    }
}

/// Euclid's lemma: a prime dividing a product divides one of the factors.
pub proof fn lemma_euclid(p: nat, x: nat, y: nat)
    requires
        is_prime(p),
        (x * y) % p == 0,
        x % p != 0,
    ensures
        y % p == 0,
{
    let g = gcd(x, p);
    lemma_gcd_divides(x, p);
    if g > p {
        lemma_small_mod(p, g);
    }
    if g == p {
        assert(false);
    }
    if 1 < g && g < p {
        assert(p % g != 0);
    }
    assert(g == 1);
    lemma_gcd_commutative(x, p);
    let (s, t) = lemma_bezout(x, p);
    let (xi, yi, pi) = (x as int, y as int, p as int);
    lemma_fundamental_div_mod(xi * yi, pi);
    let k = (xi * yi) / pi;
    let m = k * s + yi * t;
    assert(yi == m * pi) by (nonlinear_arith)
        requires
            xi * s + pi * t == 1,
            xi * yi == pi * k + 0,
            m == k * s + yi * t,
    ;
    lemma_mod_multiples_basic(m, pi);
}

/// Modulo a prime, the only square roots of one are one and minus one.
proof fn lemma_square_root_of_one(p: nat, x: nat)
    requires
        is_prime(p),
        x < p,
        (x * x) % p == 1,
    ensures
        x == 1 || x == p - 1,
{
    if x == 0 {
        lemma_small_mod(0, p);
        assert(false);
    }
    let (xi, pi) = (x as int, p as int);
    lemma_fundamental_div_mod(xi * xi, pi);
    let k = (xi * xi) / pi;
    assert(((x - 1) as nat) * (x + 1) == pi * k) by (nonlinear_arith)
        requires
            xi * xi == pi * k + 1,
            x >= 1,
            xi == x,
    ;
    lemma_mod_multiples_basic(k, pi);
    assert((k * pi) == pi * k) by (nonlinear_arith);
    if ((x - 1) as nat) % p != 0 {
        lemma_euclid(p, (x - 1) as nat, x + 1);
        if x + 1 < p {
            lemma_small_mod(x + 1, p);
        }
    } else {
        lemma_small_mod((x - 1) as nat, p);
    }
}

/// The product of a sequence of integers.
pub open spec fn product(s: Seq<int>) -> int {
    s.fold_left(1, |acc: int, v: int| acc * v)
}

/// `1, 2, ..., n`.
pub open spec fn naturals(n: nat) -> Seq<int> {
    Seq::new(n, |i: int| i + 1)
}

/// `a * 1, a * 2, ..., a * n`, each modulo `p`.
pub open spec fn scaled_residues(a: nat, p: nat, n: nat) -> Seq<int> {
    Seq::new(n, |i: int| (a * (i + 1)) % (p as int))
}

proof fn lemma_product_step(f: spec_fn(int) -> int, n: nat)
    ensures
        product(Seq::new(n + 1, f)) == product(Seq::new(n, f)) * f(n as int),
{
    assert(Seq::new(n + 1, f).drop_last() =~= Seq::new(n, f));
}

/// Multiplying by `a` before reducing gives `a^n` times the plain product.
proof fn lemma_scaled_product(a: nat, p: nat, n: nat)
    requires
        p > 1,
    ensures
        product(scaled_residues(a, p, n)) % (p as int) == (pow(a as int, n) * product(
            naturals(n),
        )) % (p as int),
    decreases n,
{
    let pi = p as int;
    if n == 0 {
        lemma_pow0(a as int);
        assert(scaled_residues(a, p, 0) =~= Seq::<int>::empty());
        assert(naturals(0) =~= Seq::<int>::empty());
    } else {
        let m = (n - 1) as nat;
        lemma_scaled_product(a, p, m);
        let f = |i: int| (a * (i + 1)) % pi;
        let g = |i: int| i + 1;
        lemma_product_step(f, m);
        lemma_product_step(g, m);
        assert(scaled_residues(a, p, n) =~= Seq::new(m + 1, f));
        assert(scaled_residues(a, p, m) =~= Seq::new(m, f));
        assert(naturals(n) =~= Seq::new(m + 1, g));
        assert(naturals(m) =~= Seq::new(m, g));
        let sp = product(scaled_residues(a, p, m));
        let np = product(naturals(m));
        let pw = pow(a as int, m);
        lemma_pow_adds(a as int, m, 1);
        lemma_pow1(a as int);
        // sp * ((a * n) % p) is pw * np * a * n modulo p
        let an = (a * n) as int;
        assert(f(m as int) == an % pi);
        lemma_mul_mod_noop(sp, an % pi, pi);
        lemma_mod_twice(an, pi);
        lemma_mul_mod_noop(pw * np, an, pi);
        assert((pw * np) * an == (pw * a) * (np * n)) by (nonlinear_arith)
            requires
                an == a * n,
        ;
        assert(pow(a as int, n) == pw * a);
        assert(product(naturals(n)) == np * n);
        assert(product(scaled_residues(a, p, n)) == sp * (an % pi));
    }
}

/// A prime divides no product of numbers below it.
proof fn lemma_naturals_product_not_divisible(p: nat, n: nat)
    requires
        is_prime(p),
        n < p,
    ensures
        product(naturals(n)) > 0,
        (product(naturals(n)) as nat) % p != 0,
    decreases n,
{
    let g = |i: int| i + 1;
    if n == 0 {
        assert(naturals(0) =~= Seq::<int>::empty());
        lemma_small_mod(1, p);
    } else {
        let m = (n - 1) as nat;
        lemma_naturals_product_not_divisible(p, m);
        lemma_product_step(g, m);
        assert(naturals(n) =~= Seq::new(m + 1, g));
        assert(naturals(m) =~= Seq::new(m, g));
        let np = product(naturals(m)) as nat;
        assert(np * n > 0) by (nonlinear_arith)
            requires
                np > 0,
                n > 0,
        ;
        lemma_small_mod(n, p);
        if (np * n) % p == 0 {
            lemma_euclid(p, np, n);
        }
    }
}

/// Multiplying by `a`, prime to `p`, permutes the nonzero residues.
proof fn lemma_residues_permute(a: nat, p: nat)
    requires
        is_prime(p),
        a % p != 0,
    ensures
        scaled_residues(a, p, (p - 1) as nat).to_multiset() =~= naturals(
            (p - 1) as nat,
        ).to_multiset(),
{
    let n = (p - 1) as nat;
    let pi = p as int;
    let t = scaled_residues(a, p, n);
    let s = naturals(n);
    assert forall|i: int| 0 <= i < n implies 1 <= #[trigger] t[i] < pi by {
        lemma_mod_bound(a * (i + 1), pi);
        lemma_small_mod((i + 1) as nat, p);
        if t[i] == 0 {
            lemma_euclid(p, a, (i + 1) as nat);
        }
    }
    assert(t.no_duplicates()) by {
        assert forall|i: int, j: int| 0 <= i < j < n implies t[i] != t[j] by {
            if t[i] == t[j] {
                let (x, y) = (a * (j + 1), a * (i + 1));
                lemma_fundamental_div_mod(x, pi);
                lemma_fundamental_div_mod(y, pi);
                let d = (j - i) as nat;
                let k = x / pi - y / pi;
                assert(a * d == pi * k) by (nonlinear_arith)
                    requires
                        x == pi * (x / pi) + x % pi,
                        y == pi * (y / pi) + y % pi,
                        x % pi == y % pi,
                        x == a * (j + 1),
                        y == a * (i + 1),
                        d == j - i,
                        k == x / pi - y / pi,
                ;
                lemma_mod_multiples_basic(k, pi);
                assert(k * pi == pi * k) by (nonlinear_arith);
                lemma_euclid(p, a, d);
                lemma_small_mod(d, p);
            }
        }
    }
    assert(s.no_duplicates());
    t.unique_seq_to_set();
    s.unique_seq_to_set();
    assert(t.to_set().subset_of(s.to_set())) by {
        assert forall|v: int| t.to_set().contains(v) implies s.to_set().contains(v) by {
            let i = choose|i: int| 0 <= i < t.len() && t[i] == v;
            assert(s[v - 1] == v);
        }
    }
    lemma_subset_equality(t.to_set(), s.to_set());
    t.lemma_multiset_has_no_duplicates();
    s.lemma_multiset_has_no_duplicates();
    assert forall|v: int| t.to_multiset().count(v) == s.to_multiset().count(v) by {
        broadcast use group_to_multiset_ensures;

        assert(t.contains(v) == t.to_set().contains(v));
        assert(s.contains(v) == s.to_set().contains(v));
    }
}

/// Fermat's little theorem: `a^(p-1) = 1 (mod p)` for a prime `p` not
/// dividing `a`.
pub proof fn lemma_fermat(a: nat, p: nat)
    requires
        is_prime(p),
        a % p != 0,
    ensures
        pow(a as int, (p - 1) as nat) % (p as int) == 1,
{
    let n = (p - 1) as nat;
    let pi = p as int;
    let times = |acc: int, v: int| acc * v;
    assert(commutative_foldl(times)) by {
        assert forall|x: int, y: int, v: int| #[trigger] times(times(v, x), y) == times(times(v, y), x) by {
            assert((v * x) * y == (v * y) * x) by (nonlinear_arith);
        }
    }
    lemma_residues_permute(a, p);
    lemma_fold_left_permutation(scaled_residues(a, p, n), naturals(n), times, 1);
    lemma_scaled_product(a, p, n);
    lemma_naturals_product_not_divisible(p, n);
    let f = product(naturals(n));
    let w = pow(a as int, n);
    if a == 0 {
        lemma_small_mod(0, p);
    }
    lemma_pow_positive(a as int, n);
    // (w - 1) * f is a multiple of p
    lemma_fundamental_div_mod(w * f, pi);
    lemma_fundamental_div_mod(f, pi);
    let k = (w * f) / pi - f / pi;
    let wm = w - 1;
    assert(f * wm == k * pi) by (nonlinear_arith)
        requires
            w * f == pi * ((w * f) / pi) + (w * f) % pi,
            f == pi * (f / pi) + f % pi,
            (w * f) % pi == f % pi,
            k == (w * f) / pi - f / pi,
            wm == w - 1,
    ;
    lemma_mod_multiples_basic(k, pi);
    let (x, y) = (f as nat, wm as nat);
    assert(x * y == f * wm);
    lemma_euclid(p, x, y);
    lemma_fundamental_div_mod(wm, pi);
    let q = wm / pi;
    assert(w == q * pi + 1) by (nonlinear_arith)
        requires
            wm == pi * q + 0,
            wm == w - 1,
    ;
    lemma_fundamental_div_mod_converse(w, pi, q, 1);
}

/// `x = odd_part(x) * 2^two_exponent(x)` for positive `x`.
proof fn lemma_odd_decomposition(x: nat)
    requires
        x > 0,
    ensures
        x == odd_part(x) * pow(2, two_exponent(x)),
    decreases x,
{
    if x % 2 == 0 {
        lemma_odd_decomposition(x / 2);
        let e = two_exponent(x / 2);
        lemma_pow_adds(2, e, 1);
        lemma_pow1(2);
        assert(x == odd_part(x / 2) * pow(2, e + 1)) by (nonlinear_arith)
            requires
                x / 2 == odd_part(x / 2) * pow(2, e),
                pow(2, e + 1) == pow(2, e) * 2,
                x % 2 == 0,
                x == 2 * (x / 2) + x % 2,
        ;
    } else {
        lemma_pow0(2);
    }
}

/// For a witness of a prime, no term up to `i` is one.
proof fn lemma_witness_terms_not_one(p: nat, a: nat, i: nat)
    requires
        is_prime(p),
        is_composite_witness(p, a),
        i <= two_exponent((p - 1) as nat),
    ensures
        mr_term(p, a, i) != 1,
    decreases i,
{
    if i > 0 {
        let j = (i - 1) as nat;
        lemma_witness_terms_not_one(p, a, j);
        lemma_mr_term_next(p, a, j);
        let x = mr_term(p, a, j);
        lemma_mod_bound(pow(a as int, (odd_part((p - 1) as nat) * pow(2, j)) as nat), p as int);
        if mr_term(p, a, i) == 1 {
            assert(mr_term(p, a, j) != p - 1);
            lemma_square_root_of_one(p, x as nat);
        }
    }
}

/// A prime has no Miller-Rabin witness: the test never rejects a prime.
pub proof fn lemma_prime_has_no_witness(p: nat, a: nat)
    requires
        is_prime(p),
        p > 2,
        a % p != 0,
    ensures
        !is_composite_witness(p, a),
{
    if is_composite_witness(p, a) {
        let m = (p - 1) as nat;
        let s = two_exponent(m);
        lemma_odd_decomposition(m);
        lemma_witness_terms_not_one(p, a, s);
        lemma_fermat(a, p);
        assert((odd_part(m) * pow(2, s)) as nat == m);
    }
}

} // verus!
