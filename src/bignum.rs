use num_bigint::{BigInt, BigUint, Sign};
use vstd::arithmetic::div_mod::*;
use vstd::prelude::*;

verus! {

/// The base of the digit representation: each digit is one `u32`.
pub open spec fn digit_base() -> nat {
    0x1_0000_0000
}

/// The number that a little-endian sequence of base 2^32 digits stands for.
pub open spec fn digits_value(d: Seq<u32>) -> nat
    decreases d.len(),
{
    if d.len() == 0 {
        0
    } else {
        d[0] as nat + digit_base() * digits_value(d.drop_first())
    }
}

/// A non-negative integer of any size, held as little-endian base 2^32 digits.
///
/// The arithmetic itself is done by `num_bigint::BigUint`; this type only
/// carries the digits so that contracts can speak of the value.
#[derive(Debug, PartialEq, Eq)]
pub struct BigNat {
    digits: Vec<u32>,
}

impl View for BigNat {
    type V = nat;

    closed spec fn view(&self) -> nat {
        digits_value(self.digits@)
    }
}

/// A signed integer of any size, held as a sign and a magnitude.
#[derive(Debug, PartialEq, Eq)]
pub struct BigInteger {
    negative: bool,
    magnitude: BigNat,
}

impl View for BigInteger {
    type V = int;

    closed spec fn view(&self) -> int {
        if self.negative {
            -(self.magnitude@ as int)
        } else {
            self.magnitude@ as int
        }
    }
}

/// Relies on `BigUint::new` (digits taken least significant first) and
/// `BigUint::to_u32_digits` (digits given back the same way), with the
/// `Add` impl of `BigUint` computing the sum.
#[verifier::external_body]
pub(crate) fn add_nat(a: &BigNat, b: &BigNat) -> (r: BigNat)
    ensures
        r@ == a@ + b@,
{
    let s = BigUint::new(a.digits.clone()) + BigUint::new(b.digits.clone());
    BigNat { digits: s.to_u32_digits() }
}

/// Relies on the `Sub` impl of `BigUint`, which panics below zero.
#[verifier::external_body]
pub(crate) fn sub_nat(a: &BigNat, b: &BigNat) -> (r: BigNat)
    requires
        a@ >= b@,
    ensures
        r@ == a@ - b@,
{
    let s = BigUint::new(a.digits.clone()) - BigUint::new(b.digits.clone());
    BigNat { digits: s.to_u32_digits() }
}

/// Relies on the `Mul` impl of `BigUint`.
#[verifier::external_body]
pub(crate) fn mul_nat(a: &BigNat, b: &BigNat) -> (r: BigNat)
    ensures
        r@ == a@ * b@,
{
    let s = BigUint::new(a.digits.clone()) * BigUint::new(b.digits.clone());
    BigNat { digits: s.to_u32_digits() }
}

/// Relies on the `Rem` impl of `BigUint`, which panics on a zero divisor.
#[verifier::external_body]
pub(crate) fn rem_nat(a: &BigNat, b: &BigNat) -> (r: BigNat)
    requires
        b@ > 0,
    ensures
        r@ == a@ % b@,
{
    let s = BigUint::new(a.digits.clone()) % BigUint::new(b.digits.clone());
    BigNat { digits: s.to_u32_digits() }
}

/// Relies on the `Div` impl of `BigUint` (floor division), which panics on a
/// zero divisor.
#[verifier::external_body]
pub(crate) fn div_nat(a: &BigNat, b: &BigNat) -> (r: BigNat)
    requires
        b@ > 0,
    ensures
        r@ == a@ / b@,
{
    let s = BigUint::new(a.digits.clone()) / BigUint::new(b.digits.clone());
    BigNat { digits: s.to_u32_digits() }
}

/// Relies on the `Shr<usize>` impl of `BigUint`: a shift right by one bit halves.
#[verifier::external_body]
pub(crate) fn half_nat(a: &BigNat) -> (r: BigNat)
    ensures
        r@ == a@ / 2,
{
    let s = BigUint::new(a.digits.clone()) >> 1usize;
    BigNat { digits: s.to_u32_digits() }
}

/// Relies on the `PartialOrd` impl of `BigUint`, which orders by value.
#[verifier::external_body]
pub(crate) fn lt_nat(a: &BigNat, b: &BigNat) -> (r: bool)
    ensures
        r == (a@ < b@),
{
    BigUint::new(a.digits.clone()) < BigUint::new(b.digits.clone())
}

/// Relies on the `PartialEq` impl of `BigUint`, which compares by value.
#[verifier::external_body]
pub(crate) fn eq_nat(a: &BigNat, b: &BigNat) -> (r: bool)
    ensures
        r == (a@ == b@),
{
    BigUint::new(a.digits.clone()) == BigUint::new(b.digits.clone())
}

/// The decimal character for a digit below ten.
pub open spec fn digit_char(d: nat) -> char {
    seq!['0', '1', '2', '3', '4', '5', '6', '7', '8', '9'][d as int]
}

/// The decimal representation of `n`, most significant digit first, without
/// leading zeros ("0" for zero).
pub open spec fn decimal_of(n: nat) -> Seq<char>
    decreases n,
{
    if n < 10 {
        seq![digit_char(n)]
    } else {
        decimal_of(n / 10).push(digit_char(n % 10))
    }
}

/// Whether a byte is an ASCII decimal digit.
pub open spec fn is_digit_byte(b: u8) -> bool {
    48 <= b <= 57
}

/// The number that a string of ASCII decimal digits stands for.
pub open spec fn decimal_value(s: Seq<u8>) -> nat
    decreases s.len(),
{
    if s.len() == 0 {
        0
    } else {
        decimal_value(s.drop_last()) * 10 + (s.last() - 48) as nat
    }
}

/// Relies on `BigUint::to_str_radix` in base ten: the decimal digits of the
/// value, "0" for zero.
#[verifier::external_body]
fn decimal_string_nat(a: &BigNat) -> (r: String)
    ensures
        r@ == decimal_of(a@),
{
    BigUint::new(a.digits.clone()).to_str_radix(10)
}

/// Relies on `BigUint::parse_bytes` in base ten: a non-empty run of decimal
/// digits is read as the number it writes.
#[verifier::external_body]
fn parse_decimal_nat(buf: &[u8]) -> (r: Option<BigNat>)
    requires
        buf@.len() > 0,
        forall|i: int| 0 <= i < buf@.len() ==> is_digit_byte(#[trigger] buf@[i]),
    ensures
        r is Some,
        r matches Some(v) ==> v@ == decimal_value(buf@),
{
    BigUint::parse_bytes(buf, 10).map(|v| BigNat { digits: v.to_u32_digits() })
}

impl BigNat {
    /// The number written by little-endian base 2^32 digits.
    pub(crate) fn from_digits(digits: Vec<u32>) -> (r: BigNat)
        ensures
            r@ == digits_value(digits@),
    {
        BigNat { digits }
    }

    /// The little-endian base 2^32 digits.
    pub(crate) fn digits(&self) -> (r: &Vec<u32>)
        ensures
            digits_value(r@) == self@,
    {
        &self.digits
    }

    /// The number `n`.
    pub fn from_u64(n: u64) -> (r: BigNat)
        ensures
            r@ == n as nat,
    {
        let lo = (n % 0x1_0000_0000) as u32;
        let hi = (n / 0x1_0000_0000) as u32;
        let mut digits: Vec<u32> = Vec::new();
        if n != 0 {
            digits.push(lo);
            if hi != 0 {
                digits.push(hi);
            }
        }
        proof {
            reveal_with_fuel(digits_value, 3);
            lemma_fundamental_div_mod(n as int, 0x1_0000_0000);
            assert(lo as int == n as int % 0x1_0000_0000);
            assert(hi as int == n as int / 0x1_0000_0000);
            if n != 0 {
                if hi != 0 {
                    assert(digits@.drop_first() =~= seq![hi]);
                    assert(seq![hi].drop_first() =~= Seq::<u32>::empty());
                } else {
                    assert(digits@.drop_first() =~= Seq::<u32>::empty());
                }
            }
        }
        BigNat { digits }
    }

    /// A second value equal to this one.
    pub fn duplicate(&self) -> (r: BigNat)
        ensures
            r@ == self@,
    {
        BigNat { digits: self.digits.clone() }
    }

    /// Whether the value is zero.
    pub fn is_zero(&self) -> (r: bool)
        ensures
            r == (self@ == 0),
    {
        eq_nat(self, &BigNat::from_u64(0))
    }

    /// Whether the value is odd.
    pub fn is_odd(&self) -> (r: bool)
        ensures
            r == (self@ % 2 == 1),
    {
        if self.digits.len() == 0 {
            false
        } else {
            proof {
                let d = self.digits@;
                let rest = digits_value(d.drop_first()) as int;
                assert(digit_base() * rest == 2 * (0x8000_0000 * rest));
                lemma_mod_multiples_vanish(0x8000_0000 * rest, d[0] as int, 2);
            }
            self.digits[0] % 2 == 1
        }
    }

    /// Whether this value is below `other`.
    pub fn lt(&self, other: &BigNat) -> (r: bool)
        ensures
            r == (self@ < other@),
    {
        lt_nat(self, other)
    }

    /// Whether the two values are equal.
    pub fn equals(&self, other: &BigNat) -> (r: bool)
        ensures
            r == (self@ == other@),
    {
        eq_nat(self, other)
    }

    /// `(self * other) mod m`.
    pub fn mul_mod(&self, other: &BigNat, m: &BigNat) -> (r: BigNat)
        requires
            m@ > 0,
        ensures
            r@ == (self@ * other@) % m@,
    {
        rem_nat(&mul_nat(self, other), m)
    }

    /// The decimal representation of the value.
    pub fn to_decimal(&self) -> (r: String)
        ensures
            r@ == decimal_of(self@),
    {
        decimal_string_nat(self)
    }

    /// Reads a non-empty run of ASCII decimal digits; `None` for anything else.
    pub fn from_decimal(buf: &[u8]) -> (r: Option<BigNat>)
        ensures
            r is Some <==> (buf@.len() > 0 && forall|i: int|
                0 <= i < buf@.len() ==> is_digit_byte(#[trigger] buf@[i])),
            r matches Some(v) ==> v@ == decimal_value(buf@),
    {
        if buf.len() == 0 {
            return None;
        }
        let mut i: usize = 0;
        while i < buf.len()
            invariant
                i <= buf@.len(),
                forall|j: int| 0 <= j < i ==> is_digit_byte(#[trigger] buf@[j]),
            decreases buf@.len() - i,
        {
            if buf[i] < 48 || buf[i] > 57 {
                return None;
            }
            i = i + 1;
        }
        parse_decimal_nat(buf)
    }
}

impl BigInteger {
    /// The non-negative number `n`.
    pub fn from_nat(n: BigNat) -> (r: BigInteger)
        ensures
            r@ == n@ as int,
    {
        BigInteger { negative: false, magnitude: n }
    }

    /// The number `n`.
    pub fn from_i64(n: i64) -> (r: BigInteger)
        ensures
            r@ == n as int,
    {
        if n < 0 {
            let m: u64 = if n == i64::MIN {
                0x8000_0000_0000_0000
            } else {
                (-n) as u64
            };
            BigInteger { negative: true, magnitude: BigNat::from_u64(m) }
        } else {
            BigInteger { negative: false, magnitude: BigNat::from_u64(n as u64) }
        }
    }

    /// Whether the value is below zero.
    pub fn is_negative(&self) -> (r: bool)
        ensures
            r == (self@ < 0),
    {
        self.negative && !self.magnitude.is_zero()
    }

    /// The absolute value.
    pub fn magnitude(&self) -> (r: &BigNat)
        ensures
            r@ as int == if self@ < 0 { -self@ } else { self@ },
    {
        &self.magnitude
    }
}

/// Relies on the `Add` impl of `BigInt`, with `BigInt::from_biguint` and
/// `BigInt::into_parts` moving between sign-and-magnitude and `BigInt`.
#[verifier::external_body]
pub(crate) fn add_int(a: &BigInteger, b: &BigInteger) -> (r: BigInteger)
    ensures
        r@ == a@ + b@,
{
    let sa = if a.negative { Sign::Minus } else { Sign::Plus };
    let sb = if b.negative { Sign::Minus } else { Sign::Plus };
    let x = BigInt::from_biguint(sa, BigUint::new(a.magnitude.digits.clone()));
    let y = BigInt::from_biguint(sb, BigUint::new(b.magnitude.digits.clone()));
    let (sign, mag) = (x + y).into_parts();
    BigInteger { negative: sign == Sign::Minus, magnitude: BigNat { digits: mag.to_u32_digits() } }
}

/// Relies on the `Sub` impl of `BigInt`.
#[verifier::external_body]
pub(crate) fn sub_int(a: &BigInteger, b: &BigInteger) -> (r: BigInteger)
    ensures
        r@ == a@ - b@,
{
    let sa = if a.negative { Sign::Minus } else { Sign::Plus };
    let sb = if b.negative { Sign::Minus } else { Sign::Plus };
    let x = BigInt::from_biguint(sa, BigUint::new(a.magnitude.digits.clone()));
    let y = BigInt::from_biguint(sb, BigUint::new(b.magnitude.digits.clone()));
    let (sign, mag) = (x - y).into_parts();
    BigInteger { negative: sign == Sign::Minus, magnitude: BigNat { digits: mag.to_u32_digits() } }
}

/// Relies on the `Mul` impl of `BigInt`.
#[verifier::external_body]
pub(crate) fn mul_int(a: &BigInteger, b: &BigInteger) -> (r: BigInteger)
    ensures
        r@ == a@ * b@,
{
    let sa = if a.negative { Sign::Minus } else { Sign::Plus };
    let sb = if b.negative { Sign::Minus } else { Sign::Plus };
    let x = BigInt::from_biguint(sa, BigUint::new(a.magnitude.digits.clone()));
    let y = BigInt::from_biguint(sb, BigUint::new(b.magnitude.digits.clone()));
    let (sign, mag) = (x * y).into_parts();
    BigInteger { negative: sign == Sign::Minus, magnitude: BigNat { digits: mag.to_u32_digits() } }
}

/// Relies on the `Rem` impl of `BigInt`: the remainder of truncating division,
/// which takes the sign of the dividend.
#[verifier::external_body]
pub(crate) fn rem_int(a: &BigInteger, m: &BigInteger) -> (r: BigInteger)
    requires
        m@ > 0,
    ensures
        r@ == if a@ >= 0 { a@ % m@ } else { -((-a@) % m@) },
{
    let sa = if a.negative { Sign::Minus } else { Sign::Plus };
    let x = BigInt::from_biguint(sa, BigUint::new(a.magnitude.digits.clone()));
    let y = BigInt::from_biguint(Sign::Plus, BigUint::new(m.magnitude.digits.clone()));
    let (sign, mag) = (x % y).into_parts();
    BigInteger { negative: sign == Sign::Minus, magnitude: BigNat { digits: mag.to_u32_digits() } }
}

} // verus!
