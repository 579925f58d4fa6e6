use crate::bignum::{add_nat, mul_nat, rem_nat, BigInteger, BigNat};
use crate::key_gen::random_biguint_mod;
use crate::math::{mod_pow, mod_pow_big, mod_pow_positive_big};
use vstd::arithmetic::div_mod::*;
use vstd::arithmetic::power::*;
use vstd::prelude::*;

verus! {

/// The public group: modulus `q` and generators `g`, `h`.
#[derive(Debug)]
pub struct GroupParams {
    pub q: BigNat,
    pub g: BigNat,
    pub h: BigNat,
}

impl GroupParams {
    /// `q > 3`, and both generators lie in `[0, q)`.
    pub open spec fn wf(&self) -> bool {
        self.q@ > 3 && self.g@ < self.q@ && self.h@ < self.q@
    }

    /// The group `(q, g, h)`, or `None` unless `q > 3` and `g, h < q`.
    pub fn new(q: BigNat, g: BigNat, h: BigNat) -> (r: Option<GroupParams>)
        ensures
            r is Some <==> (q@ > 3 && g@ < q@ && h@ < q@),
            r matches Some(p) ==> p.wf() && p.q@ == q@ && p.g@ == g@ && p.h@ == h@,
    {
        if BigNat::from_u64(3).lt(&q) && g.lt(&q) && h.lt(&q) {
            Some(GroupParams { q, g, h })
        } else {
            None
        }
    }
}

/// A witness: a pair of exponents.
#[derive(Debug)]
pub struct Key {
    pub alpha: BigNat,
    pub beta: BigNat,
}

impl Key {
    /// The witness `(alpha, beta)`.
    pub fn new(alpha: BigNat, beta: BigNat) -> (r: Key)
        ensures
            r.alpha@ == alpha@,
            r.beta@ == beta@,
    {
        Key { alpha, beta }
    }
}

/// The outcome of checking a response.
#[derive(Debug, Clone, Copy, PartialEq, Eq)]
pub enum Verdict {
    /// The response matches the commitments.
    Verified,
    /// A complete run whose equality check failed.
    Rejected,
    /// A numeric failure: the challenge power of `u` could not be computed.
    Failed,
}

/// The commitment `g^alpha * h^beta mod q`.
pub open spec fn commitment(g: nat, h: nat, q: nat, alpha: nat, beta: nat) -> nat {
    ((pow(g as int, alpha) * pow(h as int, beta)) % (q as int)) as nat
}

/// The honest response component `(t + x * c) mod q`.
pub open spec fn response(t: nat, x: nat, c: nat, q: nat) -> nat {
    (t + x * c) % q
}

/// What the verifier concludes from the response `(alpha_z, beta_z)`, the
/// commitments `u` and `u_t` and the challenge `c`.
pub open spec fn verdict_of(
    g: nat,
    h: nat,
    q: nat,
    alpha_z: nat,
    beta_z: nat,
    u: nat,
    u_t: nat,
    c: int,
) -> Verdict {
    match mod_pow(u, c, q) {
        None => Verdict::Failed,
        Some(u_c) => if commitment(g, h, q, alpha_z, beta_z) == (u_t * u_c) % q {
            Verdict::Verified
        } else {
            Verdict::Rejected
        },
    }
}

/// The commitment `g^alpha * h^beta mod q` of the witness `key`.
pub fn compute_u(key: &Key, g: &BigNat, h: &BigNat, q: &BigNat) -> (r: BigNat)
    requires
        q@ > 0,
    ensures
        r@ == commitment(g@, h@, q@, key.alpha@, key.beta@),
{
    let x = mod_pow_positive_big(g, &key.alpha, q);
    let y = mod_pow_positive_big(h, &key.beta, q);
    proof {
        lemma_mul_mod_noop(pow(g@ as int, key.alpha@), pow(h@ as int, key.beta@), q@ as int);
    }
    x.mul_mod(&y, q)
}

/// A fresh random witness with both components in `[0, q)`.
pub fn random_key(q: &BigNat) -> (r: Key)
    requires
        q@ > 0,
    ensures
        r.alpha@ < q@,
        r.beta@ < q@,
{
    let alpha = random_biguint_mod(q);
    let beta = random_biguint_mod(q);
    Key { alpha, beta }
}

/// The prover's response to challenge `c`:
/// `(alpha_t + alpha * c, beta_t + beta * c) mod q`.
pub fn respond(secret: &Key, blinding: &Key, c: &BigNat, q: &BigNat) -> (r: Key)
    requires
        q@ > 0,
    ensures
        r.alpha@ == response(blinding.alpha@, secret.alpha@, c@, q@),
        r.beta@ == response(blinding.beta@, secret.beta@, c@, q@),
{
    let alpha = rem_nat(&add_nat(&blinding.alpha, &mul_nat(&secret.alpha, c)), q);
    let beta = rem_nat(&add_nat(&blinding.beta, &mul_nat(&secret.beta, c)), q);
    Key { alpha, beta }
}

/// What the verifier computes from a response: the response commitment
/// `u_z`, the challenge power `u^c` and the expected value `u_t * u^c`
/// (both absent where `u^c` fails), and the verdict.
#[derive(Debug)]
pub struct Verification {
    pub u_z: BigNat,
    pub u_c: Option<BigNat>,
    pub expected: Option<BigNat>,
    pub verdict: Verdict,
}

/// Checks the response `key` against the commitments `u`, `u_t` and the
/// challenge `c`: `Verified` iff `g^alpha_z * h^beta_z == u_t * u^c (mod q)`,
/// `Failed` where `u^c mod q` cannot be computed.
pub fn verify(key: &Key, u: &BigNat, ut: &BigNat, c: &BigInteger, params: &GroupParams) -> (r:
    Verification)
    requires
        params.wf(),
    ensures
        r.u_z@ == commitment(params.g@, params.h@, params.q@, key.alpha@, key.beta@),
        match mod_pow(u@, c@, params.q@) {
            Some(v) => (r.u_c matches Some(w) && w@ == v) && (r.expected matches Some(e) && e@ == (
            ut@ * v) % params.q@),
            None => r.u_c is None && r.expected is None,
        },
        r.verdict == verdict_of(
            params.g@,
            params.h@,
            params.q@,
            key.alpha@,
            key.beta@,
            u@,
            ut@,
            c@,
        ),
{
    let u_z = compute_u(key, &params.g, &params.h, &params.q);
    match mod_pow_big(u, c, &params.q) {
        None => Verification { u_z, u_c: None, expected: None, verdict: Verdict::Failed },
        Some(u_c) => {
            let expected = ut.mul_mod(&u_c, &params.q);
            let verdict = if u_z.equals(&expected) {
                Verdict::Verified
            } else {
                Verdict::Rejected
            };
            Verification { u_z, u_c: Some(u_c), expected: Some(expected), verdict }
        },
    }
}

/// Completeness: a response derived honestly from the secret
/// `(alpha, beta)`, the blinding `(alpha_t, beta_t)` and the challenge `c` is
/// `Verified`, for every valid group and all witnesses, wherever reducing the
/// response exponents modulo `q` leaves the response commitment unchanged.
pub proof fn lemma_completeness(
    q: nat,
    g: nat,
    h: nat,
    alpha: nat,
    beta: nat,
    alpha_t: nat,
    beta_t: nat,
    c: nat,
)
    requires
        q > 3,
        g < q,
        h < q,
        alpha < q,
        beta < q,
        alpha_t < q,
        beta_t < q,
        c < q,
        commitment(g, h, q, response(alpha_t, alpha, c, q), response(beta_t, beta, c, q))
            == commitment(g, h, q, alpha_t + alpha * c, beta_t + beta * c),
    ensures
        verdict_of(
            g,
            h,
            q,
            response(alpha_t, alpha, c, q),
            response(beta_t, beta, c, q),
            commitment(g, h, q, alpha, beta),
            commitment(g, h, q, alpha_t, beta_t),
            c as int,
        ) == Verdict::Verified,
{
    let (gi, hi, qi) = (g as int, h as int, q as int);
    let (ga, hb) = (pow(gi, alpha), pow(hi, beta));
    let (gt, ht) = (pow(gi, alpha_t), pow(hi, beta_t));
    let x = gt * ht;
    let y = pow(ga * hb, c);
    let u = commitment(g, h, q, alpha, beta);
    let ut = commitment(g, h, q, alpha_t, beta_t);
    lemma_pow_adds(gi, alpha_t, alpha * c);
    lemma_pow_adds(hi, beta_t, beta * c);
    lemma_pow_multiplies(gi, alpha, c);
    lemma_pow_multiplies(hi, beta, c);
    lemma_pow_distributes(ga, hb, c);
    assert(pow(gi, alpha_t + alpha * c) * pow(hi, beta_t + beta * c) == x * y) by (nonlinear_arith)
        requires
            pow(gi, alpha_t + alpha * c) == gt * pow(ga, c),
            pow(hi, beta_t + beta * c) == ht * pow(hb, c),
            y == pow(ga, c) * pow(hb, c),
            x == gt * ht,
    ;
    let yu = pow(u as int, c);
    lemma_pow_mod_noop(ga * hb, c, qi);
    lemma_mul_mod_noop(x, yu, qi);
    lemma_mul_mod_noop_right(x, yu, qi);
    lemma_mul_mod_noop_right(x, y, qi);
}

/// Responses are told apart by their commitment alone: under the conditions
/// of `lemma_completeness`, a response `(alpha_z, beta_z)` is `Verified`
/// exactly when its commitment equals that of the honest response, and is
/// `Rejected` otherwise.
pub proof fn lemma_only_matching_responses_verify(
    q: nat,
    g: nat,
    h: nat,
    alpha: nat,
    beta: nat,
    alpha_t: nat,
    beta_t: nat,
    c: nat,
    alpha_z: nat,
    beta_z: nat,
)
    requires
        q > 3,
        g < q,
        h < q,
        alpha < q,
        beta < q,
        alpha_t < q,
        beta_t < q,
        c < q,
        commitment(g, h, q, response(alpha_t, alpha, c, q), response(beta_t, beta, c, q))
            == commitment(g, h, q, alpha_t + alpha * c, beta_t + beta * c),
    ensures
        ({
            let v = verdict_of(
                g,
                h,
                q,
                alpha_z,
                beta_z,
                commitment(g, h, q, alpha, beta),
                commitment(g, h, q, alpha_t, beta_t),
                c as int,
            );
            let honest = commitment(
                g,
                h,
                q,
                response(alpha_t, alpha, c, q),
                response(beta_t, beta, c, q),
            );
            &&& v == Verdict::Verified <==> commitment(g, h, q, alpha_z, beta_z) == honest
            &&& v == Verdict::Rejected <==> commitment(g, h, q, alpha_z, beta_z) != honest
        }),
{
    lemma_completeness(q, g, h, alpha, beta, alpha_t, beta_t, c);
}

/// One step of a protocol run, as observers see it.
#[derive(Debug)]
pub enum ProofEvent {
    /// The group the run works in.
    Parameters { q: BigNat, g: BigNat, h: BigNat },
    /// The prover's public commitment `u` and blinding commitment `u_t`.
    Commitments { u: BigNat, u_t: BigNat },
    /// The secret witness, shown to observers only.
    SecretWitness { alpha: BigNat, beta: BigNat },
    /// The blinding witness, shown to observers only.
    BlindingWitness { alpha: BigNat, beta: BigNat },
    /// The verifier's challenge.
    Challenge { c: BigNat },
    /// The prover's response.
    Response { alpha_z: BigNat, beta_z: BigNat },
    /// The verifier's commitment of the response.
    ResponseCommitment { u_z: BigNat },
    /// The verifier's `u^c mod q`.
    ChallengePower { u_c: BigNat },
    /// The verifier's `u_t * u^c mod q`.
    Expected { value: BigNat },
    /// The verdict of a completed run, with the two values compared.
    Concluded { verdict: Verdict, u_z: BigNat, expected: BigNat },
    /// The run stopped on a numeric failure.
    Failed,
}

/// The events of one run with the secret witness `secret`, the blinding
/// witness `blinding` and the challenge `c`, in the order they happen:
/// parameters, commitments, both witnesses, challenge, response, then the
/// verifier's computations and its verdict.
pub fn run_protocol(params: &GroupParams, secret: &Key, blinding: &Key, c: &BigNat) -> (r: Vec<
    ProofEvent,
>)
    requires
        params.wf(),
    ensures
        ({
            let (q, g, h) = (params.q@, params.g@, params.h@);
            let u = commitment(g, h, q, secret.alpha@, secret.beta@);
            let u_t = commitment(g, h, q, blinding.alpha@, blinding.beta@);
            let alpha_z = response(blinding.alpha@, secret.alpha@, c@, q);
            let beta_z = response(blinding.beta@, secret.beta@, c@, q);
            let u_z = commitment(g, h, q, alpha_z, beta_z);
            let verdict = verdict_of(g, h, q, alpha_z, beta_z, u, u_t, c@ as int);
            &&& r@.len() >= 8
            &&& r@[0] matches ProofEvent::Parameters { q: eq, g: eg, h: eh } && eq@ == q && eg@
                == g && eh@ == h
            &&& r@[1] matches ProofEvent::Commitments { u: eu, u_t: et } && eu@ == u && et@ == u_t
            &&& r@[2] matches ProofEvent::SecretWitness { alpha: ea, beta: eb } && ea@
                == secret.alpha@ && eb@ == secret.beta@
            &&& r@[3] matches ProofEvent::BlindingWitness { alpha: ea, beta: eb } && ea@
                == blinding.alpha@ && eb@ == blinding.beta@
            &&& r@[4] matches ProofEvent::Challenge { c: ec } && ec@ == c@
            &&& r@[5] matches ProofEvent::Response { alpha_z: ea, beta_z: eb } && ea@ == alpha_z
                && eb@ == beta_z
            &&& r@[6] matches ProofEvent::ResponseCommitment { u_z: ez } && ez@ == u_z
            &&& verdict == Verdict::Failed ==> r@.len() == 8 && r@[7] is Failed
            &&& verdict != Verdict::Failed ==> {
                let u_c = (pow(u as int, c@) % (q as int)) as nat;
                let expected = (u_t * u_c) % q;
                &&& r@.len() == 10
                &&& r@[7] matches ProofEvent::ChallengePower { u_c: ec } && ec@ == u_c
                &&& r@[8] matches ProofEvent::Expected { value: ev } && ev@ == expected
                &&& r@[9] matches ProofEvent::Concluded { verdict: v, u_z: ez, expected: ee } && v
                    == verdict && ez@ == u_z && ee@ == expected
            }
        }),
{
    let q = &params.q;
    let u = compute_u(secret, &params.g, &params.h, q);
    let u_t = compute_u(blinding, &params.g, &params.h, q);
    let mut events: Vec<ProofEvent> = Vec::new();
    events.push(
        ProofEvent::Parameters { q: q.duplicate(), g: params.g.duplicate(), h: params.h.duplicate() },
    );
    events.push(ProofEvent::Commitments { u: u.duplicate(), u_t: u_t.duplicate() });
    events.push(
        ProofEvent::SecretWitness { alpha: secret.alpha.duplicate(), beta: secret.beta.duplicate() },
    );
    events.push(
        ProofEvent::BlindingWitness {
            alpha: blinding.alpha.duplicate(),
            beta: blinding.beta.duplicate(),
        },
    );
    events.push(ProofEvent::Challenge { c: c.duplicate() });
    let z = respond(secret, blinding, c, q);
    events.push(ProofEvent::Response { alpha_z: z.alpha.duplicate(), beta_z: z.beta.duplicate() });
    let check = verify(&z, &u, &u_t, &BigInteger::from_nat(c.duplicate()), params);
    events.push(ProofEvent::ResponseCommitment { u_z: check.u_z.duplicate() });
    match (check.u_c, check.expected) {
        (Some(u_c), Some(expected)) => {
            events.push(ProofEvent::ChallengePower { u_c });
            events.push(ProofEvent::Expected { value: expected.duplicate() });
            events.push(ProofEvent::Concluded { verdict: check.verdict, u_z: check.u_z, expected });
        },
        _ => {
            events.push(ProofEvent::Failed);
        },
    }
    events
}

} // verus!
