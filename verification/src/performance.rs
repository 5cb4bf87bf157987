//! An order's performance in a single denomination, combined from the
//! figures of its vaults.

use vstd::prelude::*;
use crate::error::PerformanceError;
use crate::fixed::{add_spec, div18_spec, mul18_spec, one18, Fixed18};
use crate::ranking::{contributions, Contribution, TokenDenominationVol};
use crate::ratio::PairRatioMap;
use crate::signed::{
    combine_spec, lemma_combine_adds_values, sum_values, SignedAmount, SignedRaw,
};
use crate::types::{PairView, SgErc20, TokenPair, TokenView};

verus! {

/// Seconds in a year of 365 days.
pub const YEAR: u64 = 31_536_000;

/// The raw integer of a year in seconds as an 18-decimal number.
pub open spec fn year18() -> nat {
    YEAR as nat * one18()
}

/// The volume of one vault over a time window.
#[derive(Clone, Copy, Debug, PartialEq, Eq, Hash, Structural)]
pub struct VolumeDetails {
    pub total_in: Fixed18,
    pub total_out: Fixed18,
    pub total_vol: Fixed18,
    pub net_vol: Fixed18,
    pub is_neg: bool,
}

/// The annualized return of one vault over a time window.
#[derive(Clone, Copy, Debug, PartialEq, Eq, Hash, Structural)]
pub struct APYDetails {
    pub start_time: u64,
    pub end_time: u64,
    pub net_vol: Fixed18,
    pub capital: Fixed18,
    pub apy: Fixed18,
    pub is_neg: bool,
}

/// The content of a [`VaultPerformance`].
pub ghost struct VaultView {
    pub id: Seq<char>,
    pub token: TokenView,
    pub vol_details: VolumeDetails,
    pub apy_details: Option<APYDetails>,
}

/// The figures of one vault.
#[derive(Debug, PartialEq, Eq, Hash)]
pub struct VaultPerformance {
    pub id: String,
    pub token: SgErc20,
    pub vol_details: VolumeDetails,
    pub apy_details: Option<APYDetails>,
}

impl View for VaultPerformance {
    type V = VaultView;

    open spec fn view(&self) -> VaultView {
        VaultView {
            id: self.id@,
            token: self.token@,
            vol_details: self.vol_details,
            apy_details: self.apy_details,
        }
    }
}

impl Clone for VaultPerformance {
    fn clone(&self) -> (r: Self)
        ensures
            r@ == self@,
    {
        VaultPerformance {
            id: self.id.clone(),
            token: self.token.clone(),
            vol_details: self.vol_details,
            apy_details: self.apy_details,
        }
    }
}

/// The contents of a list of vault figures.
pub open spec fn vault_views(s: Seq<VaultPerformance>) -> Seq<VaultView> {
    s.map_values(|v: VaultPerformance| v@)
}

/// The content of a [`DenominatedPerformance`], with raw integers.
pub ghost struct DenominationView {
    pub token: TokenView,
    pub apy: nat,
    pub apy_is_neg: bool,
    pub net_vol: nat,
    pub net_vol_is_neg: bool,
    pub starting_capital: nat,
}

/// An order's performance expressed in one token.
#[derive(Debug, PartialEq, Eq)]
pub struct DenominatedPerformance {
    pub token: SgErc20,
    pub apy: Fixed18,
    pub apy_is_neg: bool,
    pub net_vol: Fixed18,
    pub net_vol_is_neg: bool,
    pub starting_capital: Fixed18,
}

impl View for DenominatedPerformance {
    type V = DenominationView;

    open spec fn view(&self) -> DenominationView {
        DenominationView {
            token: self.token@,
            apy: self.apy@,
            apy_is_neg: self.apy_is_neg,
            net_vol: self.net_vol@,
            net_vol_is_neg: self.net_vol_is_neg,
            starting_capital: self.starting_capital@,
        }
    }
}

impl Clone for DenominatedPerformance {
    fn clone(&self) -> (r: Self)
        ensures
            r@ == self@,
    {
        DenominatedPerformance {
            token: self.token.clone(),
            apy: self.apy,
            apy_is_neg: self.apy_is_neg,
            net_vol: self.net_vol,
            net_vol_is_neg: self.net_vol_is_neg,
            starting_capital: self.starting_capital,
        }
    }
}

/// The contents of a list of denominated performances.
pub open spec fn denomination_views(s: Seq<DenominatedPerformance>) -> Seq<DenominationView> {
    s.map_values(|d: DenominatedPerformance| d@)
}

/// The share of a year that a window covers, as an 18-decimal number. A
/// window that does not end after it starts has none.
pub open spec fn annual_fraction_spec(start: u64, end: u64) -> Result<nat, PerformanceError> {
    if end <= start {
        Err(PerformanceError::DivByZero)
    } else {
        div18_spec(((end - start) * one18()) as nat, year18())
    }
}

/// The share of a year that a proper window covers is a positive number
/// that fits.
pub proof fn lemma_annual_fraction_positive(start: u64, end: u64)
    requires
        start < end,
    ensures
        annual_fraction_spec(start, end) is Ok,
        annual_fraction_spec(start, end)->Ok_0 > 0,
        annual_fraction_spec(start, end)->Ok_0 == ((end - start) * one18()) / (YEAR as int),
{
    let d = (end - start) as nat;
    let s = one18();
    let y = YEAR as nat;
    assert(d >= 1 && d < 0x1_0000_0000_0000_0000);
    assert(((d * s) * s) / (y * s) == (d * s) / y) by {
        vstd::arithmetic::div_mod::lemma_div_denominator((d * s * s) as int, s as int, y as int);
        assert(y * s == s * y) by (nonlinear_arith);
        vstd::arithmetic::div_mod::lemma_div_multiples_vanish((d * s) as int, s as int);
        assert((d * s * s) / s == d * s);
    }
    assert(d * s >= s) by (nonlinear_arith)
        requires
            d >= 1,
    ;
    assert(d * s < 0x1_0000_0000_0000_0000 * s) by (nonlinear_arith)
        requires
            d < 0x1_0000_0000_0000_0000,
            s > 0,
    ;
    vstd::arithmetic::div_mod::lemma_div_is_ordered(s as int, (d * s) as int, y as int);
    assert(s / y > 0);
    vstd::arithmetic::div_mod::lemma_div_is_ordered_by_denominator((d * s) as int, 1, y as int);
}

/// The share of a year that the window from `start` to `end` covers. Fails
/// with `DivByZero` where the window does not end after it starts.
pub fn annual_fraction(start: u64, end: u64) -> (r: Result<Fixed18, PerformanceError>)
    ensures
        crate::fixed::raw_result(r) == annual_fraction_spec(start, end),
{
    if end <= start {
        return Err(PerformanceError::DivByZero);
    }
    let seconds: u128 = (end - start) as u128;
    assert(seconds * 1_000_000_000_000_000_000 < 0x1_0000_0000_0000_0000
        * 1_000_000_000_000_000_000) by (nonlinear_arith)
        requires
            seconds < 0x1_0000_0000_0000_0000,
    ;
    let window = Fixed18::from_u128(seconds * 1_000_000_000_000_000_000u128);
    let year = Fixed18::from_u128(YEAR as u128 * 1_000_000_000_000_000_000u128);
    window.div18(year)
}

/// The running totals of one denomination.
pub ghost struct TotalsView {
    /// Cleared once a vault could not be converted; nothing is added after.
    pub feasible: bool,
    pub capital: nat,
    pub net_vol: SignedRaw,
    pub rate_vol: SignedRaw,
    pub contributions: Seq<Contribution>,
}

/// The totals before any vault: zero, feasible, no contribution.
pub open spec fn empty_totals() -> TotalsView {
    TotalsView {
        feasible: true,
        capital: 0,
        net_vol: SignedRaw { magnitude: 0, negative: false },
        rate_vol: SignedRaw { magnitude: 0, negative: false },
        contributions: Seq::empty(),
    }
}

/// Adds one vault's capital and net volume, both already in the running
/// denomination, and its net volume per year.
pub open spec fn contribute_spec(
    acc: TotalsView,
    token: TokenView,
    capital: nat,
    net_vol: nat,
    is_neg: bool,
    annual: nat,
) -> Result<TotalsView, PerformanceError> {
    match add_spec(acc.capital, capital) {
        Err(e) => Err(e),
        Ok(total_capital) => match combine_spec(
            acc.net_vol,
            SignedRaw { magnitude: net_vol, negative: is_neg },
        ) {
            Err(e) => Err(e),
            Ok(total_net) => match div18_spec(net_vol, annual) {
                Err(e) => Err(e),
                Ok(rate) => match combine_spec(
                    acc.rate_vol,
                    SignedRaw { magnitude: rate, negative: is_neg },
                ) {
                    Err(e) => Err(e),
                    Ok(total_rate) => Ok(
                        TotalsView {
                            feasible: true,
                            capital: total_capital,
                            net_vol: total_net,
                            rate_vol: total_rate,
                            contributions: acc.contributions.push(
                                Contribution { token, net_vol, is_neg },
                            ),
                        },
                    ),
                },
            },
        },
    }
}

/// Folds one vault into the totals of denomination `t`. A vault without
/// figures changes nothing, and neither does any vault once the totals are
/// infeasible. A vault of token `t` enters as it is; a vault of another token
/// enters through the ratio of `t` to its token, by magnitude, and makes the
/// totals infeasible where the map has no resolved ratio for that pair.
pub open spec fn fold_vault_spec(
    acc: TotalsView,
    t: TokenView,
    v: VaultView,
    ratios: Map<PairView, Option<SignedRaw>>,
) -> Result<TotalsView, PerformanceError> {
    if !acc.feasible {
        Ok(acc)
    } else {
        match v.apy_details {
            None => Ok(acc),
            Some(d) => match annual_fraction_spec(d.start_time, d.end_time) {
                Err(e) => Err(e),
                Ok(annual) => {
                    let pair = PairView { input: t, output: v.token };
                    if v.token == t {
                        contribute_spec(acc, t, d.capital@, d.net_vol@, d.is_neg, annual)
                    } else if ratios.contains_key(pair) && ratios[pair].is_some() {
                        let ratio = ratios[pair]->Some_0.magnitude;
                        match mul18_spec(d.capital@, ratio) {
                            Err(e) => Err(e),
                            Ok(capital) => match mul18_spec(d.net_vol@, ratio) {
                                Err(e) => Err(e),
                                Ok(net_vol) => contribute_spec(
                                    acc,
                                    v.token,
                                    capital,
                                    net_vol,
                                    d.is_neg,
                                    annual,
                                ),
                            },
                        }
                    } else {
                        Ok(TotalsView { feasible: false, ..acc })
                    }
                },
            },
        }
    }
}

/// The totals of denomination `t` over the vaults in their order, or the
/// first arithmetic failure met on the way.
pub open spec fn accumulate_spec(
    t: TokenView,
    vaults: Seq<VaultView>,
    ratios: Map<PairView, Option<SignedRaw>>,
) -> Result<TotalsView, PerformanceError>
    decreases vaults.len(),
{
    if vaults.len() == 0 {
        Ok(empty_totals())
    } else {
        match accumulate_spec(t, vaults.drop_last(), ratios) {
            Err(e) => Err(e),
            Ok(acc) => fold_vault_spec(acc, t, vaults.last(), ratios),
        }
    }
}

/// A failure over the first `k` vaults is the failure over all of them.
pub proof fn lemma_accumulate_prefix_error(
    t: TokenView,
    vaults: Seq<VaultView>,
    ratios: Map<PairView, Option<SignedRaw>>,
    k: int,
)
    requires
        0 <= k <= vaults.len(),
        accumulate_spec(t, vaults.take(k), ratios) is Err,
    ensures
        accumulate_spec(t, vaults, ratios) == accumulate_spec(t, vaults.take(k), ratios),
    decreases vaults.len() - k,
{
    if k == vaults.len() {
        assert(vaults.take(k) =~= vaults);
    } else {
        assert(vaults.drop_last().take(k) =~= vaults.take(k));
        lemma_accumulate_prefix_error(t, vaults.drop_last(), ratios, k);
    }
}

/// The running totals of one denomination.
pub struct Totals {
    pub feasible: bool,
    pub capital: Fixed18,
    pub net_vol: SignedAmount,
    pub rate_vol: SignedAmount,
    pub contributions: Vec<TokenDenominationVol>,
}

impl View for Totals {
    type V = TotalsView;

    open spec fn view(&self) -> TotalsView {
        TotalsView {
            feasible: self.feasible,
            capital: self.capital@,
            net_vol: self.net_vol@,
            rate_vol: self.rate_vol@,
            contributions: contributions(self.contributions@),
        }
    }
}

/// A result with the successful totals replaced by their content.
pub open spec fn totals_result(r: Result<Totals, PerformanceError>) -> Result<
    TotalsView,
    PerformanceError,
> {
    match r {
        Ok(v) => Ok(v@),
        Err(e) => Err(e),
    }
}

impl Totals {
    /// The totals before any vault.
    pub fn new() -> (r: Totals)
        ensures
            r@ == empty_totals(),
    {
        let r = Totals {
            feasible: true,
            capital: Fixed18::zero(),
            net_vol: SignedAmount::zero(),
            rate_vol: SignedAmount::zero(),
            contributions: Vec::new(),
        };
        proof {
            assert(contributions(r.contributions@) =~= Seq::<Contribution>::empty());
        }
        r
    }

    /// Adds one vault's capital and net volume, both already in the running
    /// denomination, and its net volume per year.
    pub fn contribute(
        self,
        token: &SgErc20,
        capital: Fixed18,
        net_vol: Fixed18,
        is_neg: bool,
        annual: Fixed18,
    ) -> (r: Result<Totals, PerformanceError>)
        ensures
            totals_result(r) == contribute_spec(
                self@,
                token@,
                capital@,
                net_vol@,
                is_neg,
                annual@,
            ),
    {
        let total_capital = match self.capital.add(capital) {
            Ok(v) => v,
            Err(e) => {
                return Err(e);
            },
        };
        let total_net = match self.net_vol.combine(
            SignedAmount { magnitude: net_vol, negative: is_neg },
        ) {
            Ok(v) => v,
            Err(e) => {
                return Err(e);
            },
        };
        let rate = match net_vol.div18(annual) {
            Ok(v) => v,
            Err(e) => {
                return Err(e);
            },
        };
        let total_rate = match self.rate_vol.combine(
            SignedAmount { magnitude: rate, negative: is_neg },
        ) {
            Ok(v) => v,
            Err(e) => {
                return Err(e);
            },
        };
        let ghost before = contributions(self.contributions@);
        let mut list = self.contributions;
        list.push(TokenDenominationVol { token: token.clone(), net_vol, is_neg });
        proof {
            assert(contributions(list@) =~= before.push(
                Contribution { token: token@, net_vol: net_vol@, is_neg },
            ));
        }
        Ok(
            Totals {
                feasible: true,
                capital: total_capital,
                net_vol: total_net,
                rate_vol: total_rate,
                contributions: list,
            },
        )
    }

    /// Folds one vault into the totals of denomination `t`.
    pub fn fold_vault(self, t: &SgErc20, v: &VaultPerformance, ratios: &PairRatioMap) -> (r: Result<
        Totals,
        PerformanceError,
    >)
        ensures
            totals_result(r) == fold_vault_spec(self@, t@, v@, ratios@),
    {
        if !self.feasible {
            return Ok(self);
        }
        let d = match v.apy_details {
            None => {
                return Ok(self);
            },
            Some(d) => d,
        };
        let annual = match annual_fraction(d.start_time, d.end_time) {
            Ok(a) => a,
            Err(e) => {
                return Err(e);
            },
        };
        if v.token.same_token(t) {
            return self.contribute(t, d.capital, d.net_vol, d.is_neg, annual);
        }
        let pair = TokenPair { input: t.clone(), output: v.token.clone() };
        match ratios.get(&pair) {
            Some(Some(ratio)) => {
                let capital = match d.capital.mul18(ratio.magnitude) {
                    Ok(c) => c,
                    Err(e) => {
                        return Err(e);
                    },
                };
                let net_vol = match d.net_vol.mul18(ratio.magnitude) {
                    Ok(n) => n,
                    Err(e) => {
                        return Err(e);
                    },
                };
                self.contribute(&v.token, capital, net_vol, d.is_neg, annual)
            },
            _ => Ok(
                Totals {
                    feasible: false,
                    capital: self.capital,
                    net_vol: self.net_vol,
                    rate_vol: self.rate_vol,
                    contributions: self.contributions,
                },
            ),
        }
    }

    /// The totals of denomination `t` over the vaults in their order.
    pub fn accumulate(t: &SgErc20, vaults: &[VaultPerformance], ratios: &PairRatioMap) -> (r:
        Result<Totals, PerformanceError>)
        ensures
            totals_result(r) == accumulate_spec(t@, vault_views(vaults@), ratios@),
    {
        let ghost views = vault_views(vaults@);
        let mut acc = Totals::new();
        let mut i: usize = 0;
        proof {
            assert(views.take(0) =~= Seq::<VaultView>::empty());
        }
        while i < vaults.len()
            invariant
                i <= vaults@.len(),
                views == vault_views(vaults@),
                accumulate_spec(t@, views.take(i as int), ratios@) == Ok::<
                    TotalsView,
                    PerformanceError,
                >(acc@),
            decreases vaults.len() - i,
        {
            proof {
                assert(views.take(i + 1).drop_last() =~= views.take(i as int));
                assert(views.take(i + 1).last() == vaults@[i as int]@);
            }
            match acc.fold_vault(t, &vaults[i], ratios) {
                Ok(next) => {
                    acc = next;
                },
                Err(e) => {
                    proof {
                        lemma_accumulate_prefix_error(t@, views, ratios@, i + 1);
                    }
                    return Err(e);
                },
            }
            i = i + 1;
        }
        proof {
            assert(views.take(i as int) =~= views);
        }
        Ok(acc)
    }
}

/// The signed amounts that a list of contributions stands for.
pub open spec fn contribution_amounts(s: Seq<Contribution>) -> Seq<SignedRaw> {
    s.map_values(|c: Contribution| SignedRaw { magnitude: c.net_vol, negative: c.is_neg })
}

/// The totals of a denomination agree with the contributions gathered for it:
/// the combined net volume stands for the sum of the signed contributions,
/// and so it is whether the totals ended feasible or not.
pub proof fn lemma_totals_sum_contributions(
    t: TokenView,
    vaults: Seq<VaultView>,
    ratios: Map<PairView, Option<SignedRaw>>,
)
    ensures
        accumulate_spec(t, vaults, ratios) matches Ok(acc) ==> acc.net_vol.value() == sum_values(
            contribution_amounts(acc.contributions),
        ),
    decreases vaults.len(),
{
    if vaults.len() == 0 {
        assert(contribution_amounts(empty_totals().contributions) =~= Seq::<SignedRaw>::empty());
    } else {
        lemma_totals_sum_contributions(t, vaults.drop_last(), ratios);
        match accumulate_spec(t, vaults.drop_last(), ratios) {
            Ok(before) => {
                match fold_vault_spec(before, t, vaults.last(), ratios) {
                    Ok(after) => {
                        if after.contributions != before.contributions {
                            let c = after.contributions.last();
                            let x = SignedRaw { magnitude: c.net_vol, negative: c.is_neg };
                            assert(after.contributions == before.contributions.push(c));
                            assert(combine_spec(before.net_vol, x) == Ok::<
                                SignedRaw,
                                PerformanceError,
                            >(after.net_vol));
                            lemma_combine_adds_values(before.net_vol, x);
                            let amounts = contribution_amounts(after.contributions);
                            assert(amounts.drop_last() =~= contribution_amounts(
                                before.contributions,
                            ));
                            assert(amounts.last() == x);
                        }
                    },
                    Err(_) => {},
                }
            },
            Err(_) => {},
        }
    }
}

} // verus!
