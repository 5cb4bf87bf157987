//! Signed quantities as an unsigned magnitude with a sign flag.

use vstd::prelude::*;
use vstd::string::*;
use crate::error::PerformanceError;
use crate::fixed::{add_spec, amount_literal, div18_spec, pow256, Fixed18};

verus! {

/// The mathematical content of a [`SignedAmount`]: a raw magnitude and a sign
/// flag. A zero magnitude keeps the flag it was given.
pub ghost struct SignedRaw {
    pub magnitude: nat,
    pub negative: bool,
}

impl SignedRaw {
    /// The signed integer that the pair stands for.
    pub open spec fn value(self) -> int {
        if self.negative {
            -(self.magnitude as int)
        } else {
            self.magnitude as int
        }
    }
}

/// A signed fixed-point number: `magnitude`, negated where `negative` is set.
#[derive(Clone, Copy, Debug, PartialEq, Eq, Hash, Structural)]
pub struct SignedAmount {
    pub magnitude: Fixed18,
    pub negative: bool,
}

impl View for SignedAmount {
    type V = SignedRaw;

    open spec fn view(&self) -> SignedRaw {
        SignedRaw { magnitude: self.magnitude@, negative: self.negative }
    }
}

/// A result with the successful amount replaced by its content.
pub open spec fn signed_result(r: Result<SignedAmount, PerformanceError>) -> Result<
    SignedRaw,
    PerformanceError,
> {
    match r {
        Ok(v) => Ok(v@),
        Err(e) => Err(e),
    }
}

/// `a` plus the signed equivalent of `b`. Equal signs add the magnitudes; with
/// opposite signs the smaller magnitude is taken from the larger, and the
/// result has the sign of the larger, that of `a` on a tie.
pub open spec fn combine_spec(a: SignedRaw, b: SignedRaw) -> Result<SignedRaw, PerformanceError> {
    if a.negative == b.negative {
        match add_spec(a.magnitude, b.magnitude) {
            Ok(m) => Ok(SignedRaw { magnitude: m, negative: a.negative }),
            Err(e) => Err(e),
        }
    } else if a.magnitude >= b.magnitude {
        Ok(SignedRaw { magnitude: (a.magnitude - b.magnitude) as nat, negative: a.negative })
    } else {
        Ok(SignedRaw { magnitude: (b.magnitude - a.magnitude) as nat, negative: b.negative })
    }
}

/// The fixed-point quotient of two signed amounts: the magnitudes divide, and
/// the quotient is negative where exactly one operand is.
pub open spec fn signed_div_spec(a: SignedRaw, b: SignedRaw) -> Result<
    SignedRaw,
    PerformanceError,
> {
    match div18_spec(a.magnitude, b.magnitude) {
        Ok(m) => Ok(SignedRaw { magnitude: m, negative: a.negative != b.negative }),
        Err(e) => Err(e),
    }
}

/// The amount that a signed literal stands for: an optional `-`, then an
/// unsigned amount literal.
pub open spec fn signed_literal(s: Seq<char>) -> Result<SignedRaw, PerformanceError> {
    if s.len() > 0 && s[0] == '-' {
        match amount_literal(s.skip(1)) {
            Ok(m) => Ok(SignedRaw { magnitude: m, negative: true }),
            Err(e) => Err(e),
        }
    } else {
        match amount_literal(s) {
            Ok(m) => Ok(SignedRaw { magnitude: m, negative: false }),
            Err(e) => Err(e),
        }
    }
}

/// The amounts of `s` combined from the left, starting from positive zero.
pub open spec fn combine_all_spec(s: Seq<SignedRaw>) -> Result<SignedRaw, PerformanceError>
    decreases s.len(),
{
    if s.len() == 0 {
        Ok(SignedRaw { magnitude: 0, negative: false })
    } else {
        match combine_all_spec(s.drop_last()) {
            Ok(acc) => combine_spec(acc, s.last()),
            Err(e) => Err(e),
        }
    }
}

/// The contents of a list of amounts.
pub open spec fn raw_amounts(s: Seq<SignedAmount>) -> Seq<SignedRaw> {
    s.map_values(|a: SignedAmount| a@)
}

impl SignedAmount {
    /// The signed integer that the amount stands for.
    pub open spec fn value(self) -> int {
        self@.value()
    }

    /// Positive zero.
    pub fn zero() -> (r: SignedAmount)
        ensures
            r@ == (SignedRaw { magnitude: 0, negative: false }),
    {
        SignedAmount { magnitude: Fixed18::zero(), negative: false }
    }

    /// Adds `other` to `self` as signed numbers. Fails with `Overflow` where
    /// the signs agree and the magnitudes' sum leaves 256 bits.
    pub fn combine(self, other: SignedAmount) -> (r: Result<SignedAmount, PerformanceError>)
        ensures
            signed_result(r) == combine_spec(self@, other@),
            r matches Ok(v) ==> v.value() == self.value() + other.value(),
    {
        if self.negative == other.negative {
            match self.magnitude.add(other.magnitude) {
                Ok(m) => Ok(SignedAmount { magnitude: m, negative: self.negative }),
                Err(e) => Err(e),
            }
        } else if self.magnitude.ge(&other.magnitude) {
            Ok(
                SignedAmount {
                    magnitude: self.magnitude.saturating_sub(other.magnitude),
                    negative: self.negative,
                },
            )
        } else {
            Ok(
                SignedAmount {
                    magnitude: other.magnitude.saturating_sub(self.magnitude),
                    negative: other.negative,
                },
            )
        }
    }

    /// The signed fixed-point quotient `self / other`. Fails with `DivByZero`
    /// where `other` has a zero magnitude, whatever its sign.
    pub fn div(self, other: SignedAmount) -> (r: Result<SignedAmount, PerformanceError>)
        ensures
            signed_result(r) == signed_div_spec(self@, other@),
    {
        match self.magnitude.div18(other.magnitude) {
            Ok(m) => Ok(SignedAmount { magnitude: m, negative: self.negative != other.negative }),
            Err(e) => Err(e),
        }
    }

    /// Parses an optional `-` followed by decimal digits.
    pub fn parse(s: &str) -> (r: Result<SignedAmount, PerformanceError>)
        ensures
            signed_result(r) == signed_literal(s@),
    {
        let n = s.unicode_len();
        if n > 0 && s.get_char(0) == '-' {
            let rest = s.substring_char(1, n);
            proof {
                assert(s@.subrange(1, n as int) =~= s@.skip(1));
            }
            match Fixed18::parse(rest) {
                Ok(m) => Ok(SignedAmount { magnitude: m, negative: true }),
                Err(e) => Err(e),
            }
        } else {
            match Fixed18::parse(s) {
                Ok(m) => Ok(SignedAmount { magnitude: m, negative: false }),
                Err(e) => Err(e),
            }
        }
    }

    /// Combines the amounts of `list` from the left, starting from positive
    /// zero, and fails with the first failure on the way.
    pub fn combine_all(list: &Vec<SignedAmount>) -> (r: Result<SignedAmount, PerformanceError>)
        ensures
            signed_result(r) == combine_all_spec(raw_amounts(list@)),
    {
        let mut acc = SignedAmount::zero();
        let mut i: usize = 0;
        proof {
            assert(raw_amounts(list@).take(0) =~= Seq::<SignedRaw>::empty());
        }
        while i < list.len()
            invariant
                i <= list.len(),
                combine_all_spec(raw_amounts(list@).take(i as int)) == Ok::<
                    SignedRaw,
                    PerformanceError,
                >(acc@),
            decreases list.len() - i,
        {
            proof {
                let all = raw_amounts(list@);
                assert(all.take(i + 1).drop_last() =~= all.take(i as int));
                assert(all.take(i + 1).last() == list@[i as int]@);
            }
            match acc.combine(list[i]) {
                Ok(v) => {
                    acc = v;
                },
                Err(e) => {
                    proof {
                        lemma_combine_all_prefix_error(raw_amounts(list@), i + 1);
                    }
                    return Err(e);
                },
            }
            i = i + 1;
        }
        proof {
            assert(raw_amounts(list@).take(i as int) =~= raw_amounts(list@));
        }
        Ok(acc)
    }
}

/// A failure within the first `k` amounts is the failure of the whole list.
pub proof fn lemma_combine_all_prefix_error(s: Seq<SignedRaw>, k: int)
    requires
        0 <= k <= s.len(),
        combine_all_spec(s.take(k)) is Err,
    ensures
        combine_all_spec(s) == combine_all_spec(s.take(k)),
    decreases s.len() - k,
{
    if k == s.len() {
        assert(s.take(k) =~= s);
    } else {
        assert(s.drop_last().take(k) =~= s.take(k));
        lemma_combine_all_prefix_error(s.drop_last(), k);
    }
}

/// The sum of the signed integers that the amounts of `s` stand for.
pub open spec fn sum_values(s: Seq<SignedRaw>) -> int {
    s.fold_left(0int, |acc: int, a: SignedRaw| acc + a.value())
}

/// Combining two amounts adds the integers they stand for, and succeeds in
/// one order exactly when it does in the other.
pub proof fn lemma_combine_adds_values(a: SignedRaw, b: SignedRaw)
    ensures
        combine_spec(a, b) matches Ok(r) ==> r.value() == a.value() + b.value(),
        combine_spec(a, b) is Ok <==> combine_spec(b, a) is Ok,
        combine_spec(a, b) is Err <==> a.negative == b.negative && a.magnitude + b.magnitude
            >= pow256(),
{
}

/// Combining a list from the left yields the sum of the integers that its
/// amounts stand for.
pub proof fn lemma_combine_all_sums_values(s: Seq<SignedRaw>)
    ensures
        combine_all_spec(s) matches Ok(r) ==> r.value() == sum_values(s),
    decreases s.len(),
{
    if s.len() > 0 {
        lemma_combine_all_sums_values(s.drop_last());
        match combine_all_spec(s.drop_last()) {
            Ok(acc) => {
                lemma_combine_adds_values(acc, s.last());
            },
            Err(_) => {},
        }
    }
}

/// Combining is independent of the order of the list: two lists that hold the
/// same amounts, each as often as the other, and that both combine without
/// overflow, give the same signed number. The magnitudes agree, and so do the
/// sign flags unless the result is zero.
pub proof fn lemma_combine_all_order_independent(a: Seq<SignedRaw>, b: Seq<SignedRaw>)
    requires
        a.to_multiset() == b.to_multiset(),
        combine_all_spec(a) is Ok,
        combine_all_spec(b) is Ok,
    ensures
        combine_all_spec(a)->Ok_0.value() == combine_all_spec(b)->Ok_0.value(),
        combine_all_spec(a)->Ok_0.magnitude == combine_all_spec(b)->Ok_0.magnitude,
        combine_all_spec(a)->Ok_0.magnitude != 0 ==> combine_all_spec(a) == combine_all_spec(b),
{
    let f = |acc: int, x: SignedRaw| acc + x.value();
    assert(vstd::seq_lib::commutative_foldl(f));
    vstd::seq_lib::lemma_fold_left_permutation(a, b, f, 0int);
    lemma_combine_all_sums_values(a);
    lemma_combine_all_sums_values(b);
}

} // verus!
