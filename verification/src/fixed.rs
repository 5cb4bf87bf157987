//! Unsigned 18-decimal fixed-point numbers over 256-bit integers.

use vstd::prelude::*;
use vstd::string::*;
use crate::error::{IntErrorKind, PerformanceError};
use crate::parse::{lemma_read_digits_prefix_error, read_digits, unsigned_literal};

verus! {

/// Number of values of a 256-bit integer, `2^256`.
pub open spec fn pow256() -> nat {
    115792089237316195423570985008687907853269984665640564039457584007913129639936nat
}

/// The raw integer that stands for the number one, `10^18`.
pub open spec fn one18() -> nat {
    1_000_000_000_000_000_000
}

/// A non-negative number with 18 implied fractional digits, held as a 256-bit
/// integer in four limbs, least significant first.
#[derive(Clone, Copy, Debug, PartialEq, Eq, Hash, Structural)]
pub struct Fixed18 {
    pub l0: u64,
    pub l1: u64,
    pub l2: u64,
    pub l3: u64,
}

impl View for Fixed18 {
    type V = nat;

    /// The raw integer: the number it stands for times `10^18`.
    open spec fn view(&self) -> nat {
        (self.l0 + self.l1 * 18446744073709551616nat + self.l2
            * 340282366920938463463374607431768211456nat + self.l3
            * 6277101735386680763835789423207666416102355444464034512896nat) as nat
    }
}

/// A 512-bit integer in eight limbs, least significant first: the full
/// product of two raw integers.
#[derive(Clone, Copy, Debug, PartialEq, Eq)]
pub struct Wide {
    pub limbs: [u64; 8],
}

impl Wide {
    /// The lower 256 bits as a number.
    pub open spec fn low(self) -> nat {
        (self.limbs[0] + self.limbs[1] * 18446744073709551616nat + self.limbs[2]
            * 340282366920938463463374607431768211456nat + self.limbs[3]
            * 6277101735386680763835789423207666416102355444464034512896nat) as nat
    }

    /// The upper 256 bits as a number.
    pub open spec fn high(self) -> nat {
        (self.limbs[4] + self.limbs[5] * 18446744073709551616nat + self.limbs[6]
            * 340282366920938463463374607431768211456nat + self.limbs[7]
            * 6277101735386680763835789423207666416102355444464034512896nat) as nat
    }
}

impl View for Wide {
    type V = nat;

    open spec fn view(&self) -> nat {
        self.low() + self.high()
            * 115792089237316195423570985008687907853269984665640564039457584007913129639936nat
    }
}

/// Every raw integer lies below `2^256`.
pub proof fn lemma_value_bound(x: Fixed18)
    ensures
        x@ < pow256(),
{
}

/// The limbs of a number are the digits of its raw integer in base `2^64`.
pub proof fn lemma_limbs_of_value(x: Fixed18)
    ensures
        x.l0 == x@ % 18446744073709551616nat,
        x.l1 == (x@ / 18446744073709551616nat) % 18446744073709551616nat,
        x.l2 == (x@ / 340282366920938463463374607431768211456nat) % 18446744073709551616nat,
        x.l3 == x@ / 6277101735386680763835789423207666416102355444464034512896nat,
{
    let b = 18446744073709551616int;
    let hi1 = x.l1 + x.l2 * b + x.l3 * (b * b);
    let hi2 = x.l2 + x.l3 * b;
    assert(b * b == 340282366920938463463374607431768211456int);
    assert(b * b * b == 6277101735386680763835789423207666416102355444464034512896int);
    assert(x@ == hi1 * b + x.l0) by (nonlinear_arith)
        requires
            hi1 == x.l1 + x.l2 * b + x.l3 * (b * b),
            x@ == x.l0 + x.l1 * b + x.l2 * (b * b) + x.l3 * (b * b * b),
    ;
    vstd::arithmetic::div_mod::lemma_fundamental_div_mod_converse(x@ as int, b, hi1, x.l0 as int);
    assert(hi1 == hi2 * b + x.l1) by (nonlinear_arith)
        requires
            hi1 == x.l1 + x.l2 * b + x.l3 * (b * b),
            hi2 == x.l2 + x.l3 * b,
    ;
    vstd::arithmetic::div_mod::lemma_fundamental_div_mod_converse(hi1, b, hi2, x.l1 as int);
    vstd::arithmetic::div_mod::lemma_fundamental_div_mod_converse(hi2, b, x.l3 as int, x.l2 as int);
    assert(x@ == hi2 * (b * b) + (x.l0 + x.l1 * b)) by (nonlinear_arith)
        requires
            hi2 == x.l2 + x.l3 * b,
            x@ == x.l0 + x.l1 * b + x.l2 * (b * b) + x.l3 * (b * b * b),
    ;
    assert(0 <= x.l0 + x.l1 * b < b * b) by (nonlinear_arith)
        requires
            0 <= x.l0 < b,
            0 <= x.l1 < b,
    ;
    vstd::arithmetic::div_mod::lemma_fundamental_div_mod_converse(
        x@ as int,
        b * b,
        hi2,
        x.l0 + x.l1 * b,
    );
    assert(x@ == x.l3 * (b * b * b) + (x.l0 + x.l1 * b + x.l2 * (b * b))) by (nonlinear_arith)
        requires
            x@ == x.l0 + x.l1 * b + x.l2 * (b * b) + x.l3 * (b * b * b),
    ;
    assert(0 <= x.l0 + x.l1 * b + x.l2 * (b * b) < b * b * b) by (nonlinear_arith)
        requires
            0 <= x.l0 < b,
            0 <= x.l1 < b,
            0 <= x.l2 < b,
    ;
    vstd::arithmetic::div_mod::lemma_fundamental_div_mod_converse(
        x@ as int,
        b * b * b,
        x.l3 as int,
        x.l0 + x.l1 * b + x.l2 * (b * b),
    );
}

/// Two numbers with the same raw integer have the same limbs.
pub proof fn lemma_value_injective(x: Fixed18, y: Fixed18)
    requires
        x@ == y@,
    ensures
        x == y,
{
    lemma_limbs_of_value(x);
    lemma_limbs_of_value(y);
}

/// A result with the successful number replaced by its raw integer.
pub open spec fn raw_result(r: Result<Fixed18, PerformanceError>) -> Result<nat, PerformanceError> {
    match r {
        Ok(v) => Ok(v@),
        Err(e) => Err(e),
    }
}

/// The sum of two raw integers, where it fits 256 bits.
pub open spec fn add_spec(a: nat, b: nat) -> Result<nat, PerformanceError> {
    if a + b < pow256() {
        Ok(a + b)
    } else {
        Err(PerformanceError::Overflow)
    }
}

/// `a * b / d` truncated toward zero, computed without intermediate overflow,
/// where `d` is not zero and the quotient fits 256 bits.
pub open spec fn mul_div_spec(a: nat, b: nat, d: nat) -> Result<nat, PerformanceError> {
    if d == 0 {
        Err(PerformanceError::DivByZero)
    } else if (a * b) / d >= pow256() {
        Err(PerformanceError::Overflow)
    } else {
        Ok((a * b) / d)
    }
}

/// The fixed-point product `a * b / 10^18`.
pub open spec fn mul18_spec(a: nat, b: nat) -> Result<nat, PerformanceError> {
    mul_div_spec(a, b, one18())
}

/// The fixed-point quotient `a * 10^18 / b`.
pub open spec fn div18_spec(a: nat, b: nat) -> Result<nat, PerformanceError> {
    mul_div_spec(a, one18(), b)
}

/// The raw integer that an amount literal stands for: one or more decimal
/// digits that give a number below `2^256`.
pub open spec fn amount_literal(s: Seq<char>) -> Result<nat, PerformanceError> {
    match unsigned_literal(s, pow256()) {
        Ok(v) => Ok(v),
        Err(k) => Err(PerformanceError::ParseError(k)),
    }
}

/// Calls `Uint::<256, 4>::checked_add` of ruint, reached as alloy's `U256`,
/// between `from_limbs` and `into_limbs`, which take and give the four limbs
/// least significant first. Claims that it yields the exact sum when that is
/// below `2^256` and nothing otherwise.
#[verifier::external_body]
fn limbs_checked_add(a: Fixed18, b: Fixed18) -> (r: Option<Fixed18>)
    ensures
        r.is_some() <==> a@ + b@ < pow256(),
        r matches Some(s) ==> s@ == a@ + b@,
{
    let x = alloy::primitives::U256::from_limbs([a.l0, a.l1, a.l2, a.l3]);
    let y = alloy::primitives::U256::from_limbs([b.l0, b.l1, b.l2, b.l3]);
    match x.checked_add(y) {
        Some(s) => {
            let l = s.into_limbs();
            Some(Fixed18 { l0: l[0], l1: l[1], l2: l[2], l3: l[3] })
        },
        None => None,
    }
}

/// Calls `Uint::<256, 4>::saturating_sub` of ruint, reached as alloy's `U256`.
/// Claims that it yields the exact difference, or zero where the second
/// operand is the larger.
#[verifier::external_body]
fn limbs_saturating_sub(a: Fixed18, b: Fixed18) -> (r: Fixed18)
    ensures
        r@ == if a@ >= b@ { a@ - b@ } else { 0 },
{
    let x = alloy::primitives::U256::from_limbs([a.l0, a.l1, a.l2, a.l3]);
    let y = alloy::primitives::U256::from_limbs([b.l0, b.l1, b.l2, b.l3]);
    let l = x.saturating_sub(y).into_limbs();
    Fixed18 { l0: l[0], l1: l[1], l2: l[2], l3: l[3] }
}

/// Calls `Uint::<256, 4>::widening_mul` of ruint with a second operand of
/// 256 bits and a result of 512 bits in eight limbs. Claims that the result
/// is the exact product.
#[verifier::external_body]
fn limbs_widening_mul(a: Fixed18, b: Fixed18) -> (r: Wide)
    ensures
        r@ == a@ * b@,
{
    let x = alloy::primitives::U256::from_limbs([a.l0, a.l1, a.l2, a.l3]);
    let y = alloy::primitives::U256::from_limbs([b.l0, b.l1, b.l2, b.l3]);
    let p: alloy::primitives::U512 = x.widening_mul(y);
    Wide { limbs: p.into_limbs() }
}

/// Calls `Uint::<512, 8>::checked_div` of ruint, reached as alloy's `U512`.
/// Claims that it yields nothing for a zero divisor and the quotient
/// truncated toward zero otherwise.
#[verifier::external_body]
fn wide_checked_div(n: Wide, d: Wide) -> (r: Option<Wide>)
    ensures
        r.is_none() <==> d@ == 0,
        r matches Some(q) ==> q@ == n@ / d@,
{
    let x = alloy::primitives::U512::from_limbs(n.limbs);
    let y = alloy::primitives::U512::from_limbs(d.limbs);
    match x.checked_div(y) {
        Some(q) => Some(Wide { limbs: q.into_limbs() }),
        None => None,
    }
}

impl Fixed18 {
    /// The number zero.
    pub fn zero() -> (r: Fixed18)
        ensures
            r@ == 0,
    {
        Fixed18 { l0: 0, l1: 0, l2: 0, l3: 0 }
    }

    /// The number whose raw integer is `x`.
    pub fn from_u64(x: u64) -> (r: Fixed18)
        ensures
            r@ == x,
    {
        Fixed18 { l0: x, l1: 0, l2: 0, l3: 0 }
    }

    /// The number whose raw integer is `x`.
    pub fn from_u128(x: u128) -> (r: Fixed18)
        ensures
            r@ == x,
    {
        let low: u128 = x % 0x1_0000_0000_0000_0000u128;
        let high: u128 = x / 0x1_0000_0000_0000_0000u128;
        Fixed18 { l0: low as u64, l1: high as u64, l2: 0, l3: 0 }
    }

    /// The number one, `10^18` raw.
    pub fn one() -> (r: Fixed18)
        ensures
            r@ == one18(),
    {
        Fixed18::from_u64(1_000_000_000_000_000_000u64)
    }

    /// Parses a raw integer written as one or more decimal digits. Fails with
    /// `ParseError` on an empty string, on the first character that is no
    /// digit, and where the number leaves 256 bits.
    pub fn parse(s: &str) -> (r: Result<Fixed18, PerformanceError>)
        ensures
            raw_result(r) == amount_literal(s@),
    {
        let n = s.unicode_len();
        if n == 0 {
            return Err(PerformanceError::ParseError(IntErrorKind::Empty));
        }
        let mut acc = Fixed18::zero();
        let mut i: usize = 0;
        proof {
            assert(s@.take(0) =~= Seq::<char>::empty());
        }
        while i < n
            invariant
                i <= n,
                n == s@.len(),
                read_digits(s@.take(i as int), pow256()) == Ok::<nat, IntErrorKind>(acc@),
            decreases n - i,
        {
            let c = s.get_char(i);
            let code: u32 = c as u32;
            proof {
                assert(s@.take(i + 1).drop_last() =~= s@.take(i as int));
                assert(s@.take(i + 1).last() == c);
            }
            if code < 48 || code > 57 {
                proof {
                    lemma_read_digits_prefix_error(s@, i + 1, pow256());
                }
                return Err(PerformanceError::ParseError(IntErrorKind::InvalidDigit));
            }
            let d: u64 = (code - 48) as u64;
            // ten times the number so far
            let shifted = acc.mul_div(Fixed18::from_u64(10), Fixed18::from_u64(1));
            let next = match shifted {
                Ok(t) => t.add(Fixed18::from_u64(d)),
                Err(e) => Err(e),
            };
            match next {
                Ok(v) => {
                    acc = v;
                },
                Err(_) => {
                    proof {
                        lemma_read_digits_prefix_error(s@, i + 1, pow256());
                    }
                    return Err(PerformanceError::ParseError(IntErrorKind::PosOverflow));
                },
            }
            i = i + 1;
        }
        proof {
            assert(s@.take(i as int) =~= s@);
        }
        Ok(acc)
    }

    /// Whether the number is zero.
    pub fn is_zero(&self) -> (r: bool)
        ensures
            r == (self@ == 0),
    {
        self.l0 == 0 && self.l1 == 0 && self.l2 == 0 && self.l3 == 0
    }

    /// Whether `self` is below `other`.
    pub fn lt(&self, other: &Fixed18) -> (r: bool)
        ensures
            r == (self@ < other@),
    {
        if self.l3 != other.l3 {
            self.l3 < other.l3
        } else if self.l2 != other.l2 {
            self.l2 < other.l2
        } else if self.l1 != other.l1 {
            self.l1 < other.l1
        } else {
            self.l0 < other.l0
        }
    }

    /// Whether `self` is at least `other`.
    pub fn ge(&self, other: &Fixed18) -> (r: bool)
        ensures
            r == (self@ >= other@),
    {
        !self.lt(other)
    }

    /// The sum, or `Overflow` where it does not fit 256 bits.
    pub fn add(self, other: Fixed18) -> (r: Result<Fixed18, PerformanceError>)
        ensures
            raw_result(r) == add_spec(self@, other@),
    {
        match limbs_checked_add(self, other) {
            Some(s) => Ok(s),
            None => Err(PerformanceError::Overflow),
        }
    }

    /// The difference, or zero where `other` is the larger.
    pub fn saturating_sub(self, other: Fixed18) -> (r: Fixed18)
        ensures
            r@ == if self@ >= other@ { self@ - other@ } else { 0 },
    {
        limbs_saturating_sub(self, other)
    }

    /// `self * factor / divisor`, truncated toward zero, with a 512-bit
    /// intermediate product.
    pub fn mul_div(self, factor: Fixed18, divisor: Fixed18) -> (r: Result<
        Fixed18,
        PerformanceError,
    >)
        ensures
            raw_result(r) == mul_div_spec(self@, factor@, divisor@),
    {
        let product = limbs_widening_mul(self, factor);
        let wide_divisor = Wide {
            limbs: [divisor.l0, divisor.l1, divisor.l2, divisor.l3, 0, 0, 0, 0],
        };
        match wide_checked_div(product, wide_divisor) {
            None => Err(PerformanceError::DivByZero),
            Some(q) => {
                if q.limbs[4] == 0 && q.limbs[5] == 0 && q.limbs[6] == 0 && q.limbs[7] == 0 {
                    Ok(Fixed18 { l0: q.limbs[0], l1: q.limbs[1], l2: q.limbs[2], l3: q.limbs[3] })
                } else {
                    Err(PerformanceError::Overflow)
                }
            },
        }
    }

    /// The fixed-point product `self * other / 10^18`.
    pub fn mul18(self, other: Fixed18) -> (r: Result<Fixed18, PerformanceError>)
        ensures
            raw_result(r) == mul18_spec(self@, other@),
    {
        self.mul_div(other, Fixed18::one())
    }

    /// The fixed-point quotient `self * 10^18 / other`.
    pub fn div18(self, other: Fixed18) -> (r: Result<Fixed18, PerformanceError>)
        ensures
            raw_result(r) == div18_spec(self@, other@),
    {
        self.mul_div(Fixed18::one(), other)
    }
}

} // verus!
