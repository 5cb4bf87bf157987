//! The performance report of an order.

use vstd::prelude::*;
use crate::clock::unix_now;
use crate::error::PerformanceError;
use crate::fixed::div18_spec;
use crate::performance::{
    accumulate_spec, denomination_views, vault_views, DenominatedPerformance, DenominationView,
    Totals, TotalsView, VaultPerformance, VaultView,
};
use crate::ranking::{contributions, Contribution, TokenDenominationVol};
use crate::ratio::{get_order_pairs_ratio, resolve_pairs, PairRatioMap};
use crate::selection::{select_denomination, select_spec};
use crate::signed::SignedRaw;
use crate::types::{
    leg_tokens, legs, trade_views, OrderView, PairView, SgErc20, SgOrder, SgTrade, SgVault,
    TokenView, TradeView, VaultLeg,
};

verus! {

/// The performance of denomination `t` that feasible totals with capital
/// amount to: the yearly net volume over the capital. Infeasible totals, and
/// totals without capital, amount to none.
pub open spec fn candidate_spec(t: TokenView, totals: TotalsView) -> Result<
    Option<DenominationView>,
    PerformanceError,
> {
    if !totals.feasible || totals.capital == 0 {
        Ok(None)
    } else {
        match div18_spec(totals.rate_vol.magnitude, totals.capital) {
            Err(e) => Err(e),
            Ok(apy) => Ok(
                Some(
                    DenominationView {
                        token: t,
                        apy,
                        apy_is_neg: totals.rate_vol.negative,
                        net_vol: totals.net_vol.magnitude,
                        net_vol_is_neg: totals.net_vol.negative,
                        starting_capital: totals.capital,
                    },
                ),
            ),
        }
    }
}

/// The performance that the totals of denomination `t` amount to.
pub fn candidate_of(t: &SgErc20, totals: &Totals) -> (r: Result<
    Option<DenominatedPerformance>,
    PerformanceError,
>)
    ensures
        match r {
            Ok(Some(c)) => candidate_spec(t@, totals@) == Ok::<
                Option<DenominationView>,
                PerformanceError,
            >(Some(c@)),
            Ok(None) => candidate_spec(t@, totals@) == Ok::<
                Option<DenominationView>,
                PerformanceError,
            >(None),
            Err(e) => candidate_spec(t@, totals@) == Err::<
                Option<DenominationView>,
                PerformanceError,
            >(e),
        },
{
    if !totals.feasible || totals.capital.is_zero() {
        return Ok(None);
    }
    match totals.rate_vol.magnitude.div18(totals.capital) {
        Err(e) => Err(e),
        Ok(apy) => Ok(
            Some(
                DenominatedPerformance {
                    token: t.clone(),
                    apy,
                    apy_is_neg: totals.rate_vol.negative,
                    net_vol: totals.net_vol.magnitude,
                    net_vol_is_neg: totals.net_vol.negative,
                    starting_capital: totals.capital,
                },
            ),
        ),
    }
}

/// Whether an earlier vault with figures has the token of vault `i`.
pub open spec fn seen_before(vaults: Seq<VaultView>, i: int) -> bool {
    exists|j: int|
        0 <= j < i && (#[trigger] vaults[j]).apy_details.is_some() && vaults[j].token
            == vaults[i].token
}

/// The candidates gathered over the denominations, and the contributions by
/// which they are ranked.
pub ghost struct DenominationsView {
    pub candidates: Seq<DenominationView>,
    pub ranking: Seq<Contribution>,
    /// Set once a denomination has been worked through.
    pub started: bool,
}

/// Works through the tokens of the first `n` vaults as denominations, each
/// token once, at the first vault with figures that has it. Every
/// denomination totals all the vaults. The contributions of the first
/// denomination serve as ranking, whether it proved feasible or not; each
/// feasible denomination with capital adds a candidate. The first arithmetic
/// failure ends the work.
pub open spec fn denominations_spec(
    vaults: Seq<VaultView>,
    ratios: Map<PairView, Option<SignedRaw>>,
    n: nat,
) -> Result<DenominationsView, PerformanceError>
    decreases n,
{
    if n == 0 {
        Ok(DenominationsView { candidates: Seq::empty(), ranking: Seq::empty(), started: false })
    } else {
        match denominations_spec(vaults, ratios, (n - 1) as nat) {
            Err(e) => Err(e),
            Ok(d) => {
                let v = vaults[n - 1];
                if v.apy_details.is_none() || seen_before(vaults, n - 1) {
                    Ok(d)
                } else {
                    match accumulate_spec(v.token, vaults, ratios) {
                        Err(e) => Err(e),
                        Ok(totals) => match candidate_spec(v.token, totals) {
                            Err(e) => Err(e),
                            Ok(c) => Ok(
                                DenominationsView {
                                    candidates: match c {
                                        Some(x) => d.candidates.push(x),
                                        None => d.candidates,
                                    },
                                    ranking: if d.started {
                                        d.ranking
                                    } else {
                                        totals.contributions
                                    },
                                    started: true,
                                },
                            ),
                        },
                    }
                }
            },
        }
    }
}

/// A failure over the first `k` vaults is the failure over more of them.
pub proof fn lemma_denominations_prefix_error(
    vaults: Seq<VaultView>,
    ratios: Map<PairView, Option<SignedRaw>>,
    k: nat,
    n: nat,
)
    requires
        k <= n,
        denominations_spec(vaults, ratios, k) is Err,
    ensures
        denominations_spec(vaults, ratios, n) == denominations_spec(vaults, ratios, k),
    decreases n - k,
{
    if k < n {
        lemma_denominations_prefix_error(vaults, ratios, k, (n - 1) as nat);
    }
}

/// The candidates gathered over the denominations, and the entries by which
/// they are ranked.
pub struct Denominations {
    pub candidates: Vec<DenominatedPerformance>,
    pub ranking: Vec<TokenDenominationVol>,
    pub started: bool,
}

impl View for Denominations {
    type V = DenominationsView;

    open spec fn view(&self) -> DenominationsView {
        DenominationsView {
            candidates: denomination_views(self.candidates@),
            ranking: contributions(self.ranking@),
            started: self.started,
        }
    }
}

/// Whether an earlier vault with figures has the token of vault `i`.
pub fn token_seen_before(vaults: &[VaultPerformance], i: usize) -> (r: bool)
    requires
        i < vaults@.len(),
    ensures
        r == seen_before(vault_views(vaults@), i as int),
{
    let ghost views = vault_views(vaults@);
    let mut j: usize = 0;
    while j < i
        invariant
            j <= i < vaults@.len(),
            views == vault_views(vaults@),
            forall|l: int|
                0 <= l < j ==> !((#[trigger] views[l]).apy_details.is_some() && views[l].token
                    == views[i as int].token),
        decreases i - j,
    {
        if vaults[j].apy_details.is_some() && vaults[j].token.same_token(&vaults[i].token) {
            proof {
                assert(views[j as int].apy_details.is_some() && views[j as int].token
                    == views[i as int].token);
            }
            return true;
        }
        j = j + 1;
    }
    false
}

/// Totals all the vaults once in the token of each vault with figures, and
/// gathers the candidates and the ranking.
pub fn denominate(vaults: &[VaultPerformance], ratios: &PairRatioMap) -> (r: Result<
    Denominations,
    PerformanceError,
>)
    ensures
        match r {
            Ok(d) => denominations_spec(vault_views(vaults@), ratios@, vaults@.len()) == Ok::<
                DenominationsView,
                PerformanceError,
            >(d@),
            Err(e) => denominations_spec(vault_views(vaults@), ratios@, vaults@.len()) == Err::<
                DenominationsView,
                PerformanceError,
            >(e),
        },
{
    let ghost views = vault_views(vaults@);
    let mut found = Denominations { candidates: Vec::new(), ranking: Vec::new(), started: false };
    proof {
        assert(denomination_views(found.candidates@) =~= Seq::<DenominationView>::empty());
        assert(contributions(found.ranking@) =~= Seq::<Contribution>::empty());
    }
    let mut i: usize = 0;
    while i < vaults.len()
        invariant
            i <= vaults@.len(),
            views == vault_views(vaults@),
            denominations_spec(views, ratios@, i as nat) == Ok::<
                DenominationsView,
                PerformanceError,
            >(found@),
        decreases vaults.len() - i,
    {
        if vaults[i].apy_details.is_some() && !token_seen_before(vaults, i) {
            let token = &vaults[i].token;
            let totals = match Totals::accumulate(token, vaults, ratios) {
                Ok(t) => t,
                Err(e) => {
                    proof {
                        lemma_denominations_prefix_error(
                            views,
                            ratios@,
                            (i + 1) as nat,
                            vaults@.len(),
                        );
                    }
                    return Err(e);
                },
            };
            let candidate = match candidate_of(token, &totals) {
                Ok(c) => c,
                Err(e) => {
                    proof {
                        lemma_denominations_prefix_error(
                            views,
                            ratios@,
                            (i + 1) as nat,
                            vaults@.len(),
                        );
                    }
                    return Err(e);
                },
            };
            let ghost before = found@;
            let Denominations { candidates, ranking, started } = found;
            let mut candidates = candidates;
            match candidate {
                Some(c) => {
                    let ghost earlier = denomination_views(candidates@);
                    candidates.push(c);
                    proof {
                        assert(denomination_views(candidates@) =~= earlier.push(c@));
                    }
                },
                None => {},
            }
            let ranking = if started {
                ranking
            } else {
                totals.contributions
            };
            found = Denominations { candidates, ranking, started: true };
        }
        i = i + 1;
    }
    Ok(found)
}

/// The earlier of two times.
pub open spec fn earlier(a: u64, b: u64) -> u64 {
    if b < a {
        b
    } else {
        a
    }
}

/// The later of two times.
pub open spec fn later(a: u64, b: u64) -> u64 {
    if b > a {
        b
    } else {
        a
    }
}

/// The window that spans the windows of all vaults with figures: the earliest
/// start and the latest end. Without such a vault the start is the largest
/// time there is and the end is zero.
pub open spec fn window_spec(vaults: Seq<VaultView>) -> (u64, u64)
    decreases vaults.len(),
{
    if vaults.len() == 0 {
        (u64::MAX, 0)
    } else {
        let (start, end) = window_spec(vaults.drop_last());
        match vaults.last().apy_details {
            None => (start, end),
            Some(d) => (earlier(start, d.start_time), later(end, d.end_time)),
        }
    }
}

/// The start of the window bounds the start of every vault with figures from
/// below, its end bounds their ends from above, and both are reached by some
/// vault where there is one.
pub proof fn lemma_window_bounds(vaults: Seq<VaultView>)
    ensures
        forall|i: int|
            0 <= i < vaults.len() && (#[trigger] vaults[i]).apy_details.is_some() ==> window_spec(
                vaults,
            ).0 <= vaults[i].apy_details->Some_0.start_time
                && vaults[i].apy_details->Some_0.end_time <= window_spec(vaults).1,
        (forall|i: int| 0 <= i < vaults.len() ==> (#[trigger] vaults[i]).apy_details.is_none())
            ==> window_spec(vaults) == (u64::MAX, 0u64),
        (exists|i: int| 0 <= i < vaults.len() && (#[trigger] vaults[i]).apy_details.is_some())
            ==> (exists|i: int|
            0 <= i < vaults.len() && (#[trigger] vaults[i]).apy_details.is_some()
                && vaults[i].apy_details->Some_0.start_time == window_spec(vaults).0) && (exists|
            i: int,
        |
            0 <= i < vaults.len() && (#[trigger] vaults[i]).apy_details.is_some()
                && vaults[i].apy_details->Some_0.end_time == window_spec(vaults).1),
    decreases vaults.len(),
{
    if vaults.len() > 0 {
        let front = vaults.drop_last();
        let last = vaults.len() - 1;
        lemma_window_bounds(front);
        assert forall|i: int|
            0 <= i < vaults.len() && (
            #[trigger] vaults[i]).apy_details.is_some() implies window_spec(vaults).0
            <= vaults[i].apy_details->Some_0.start_time && vaults[i].apy_details->Some_0.end_time
            <= window_spec(vaults).1 by {
            if i < last {
                assert(front[i] == vaults[i]);
            }
        }
        if forall|i: int| 0 <= i < vaults.len() ==> (#[trigger] vaults[i]).apy_details.is_none() {
            assert forall|i: int| 0 <= i < front.len() implies (
            #[trigger] front[i]).apy_details.is_none() by {
                assert(front[i] == vaults[i]);
            }
            assert(vaults[last].apy_details.is_none());
        }
        if exists|i: int| 0 <= i < vaults.len() && (#[trigger] vaults[i]).apy_details.is_some() {
            let front_has = exists|i: int|
                0 <= i < front.len() && (#[trigger] front[i]).apy_details.is_some();
            if !front_has {
                assert forall|i: int| 0 <= i < front.len() implies (
                #[trigger] front[i]).apy_details.is_none() by {}
                let w = choose|i: int|
                    0 <= i < vaults.len() && (#[trigger] vaults[i]).apy_details.is_some();
                if w < last {
                    assert(front[w] == vaults[w]);
                }
                assert(vaults[last].apy_details.is_some());
            } else {
                let s = choose|i: int|
                    0 <= i < front.len() && (#[trigger] front[i]).apy_details.is_some()
                        && front[i].apy_details->Some_0.start_time == window_spec(front).0;
                let e = choose|i: int|
                    0 <= i < front.len() && (#[trigger] front[i]).apy_details.is_some()
                        && front[i].apy_details->Some_0.end_time == window_spec(front).1;
                assert(vaults[s] == front[s]);
                assert(vaults[e] == front[e]);
                if vaults[last].apy_details.is_some() {
                    let d = vaults[last].apy_details->Some_0;
                    if d.start_time < window_spec(front).0 {
                        assert(vaults[last].apy_details->Some_0.start_time == window_spec(
                            vaults,
                        ).0);
                    } else {
                        assert(vaults[s].apy_details->Some_0.start_time == window_spec(vaults).0);
                    }
                    if d.end_time > window_spec(front).1 {
                        assert(vaults[last].apy_details->Some_0.end_time == window_spec(vaults).1);
                    } else {
                        assert(vaults[e].apy_details->Some_0.end_time == window_spec(vaults).1);
                    }
                } else {
                    assert(vaults[s].apy_details->Some_0.start_time == window_spec(vaults).0);
                    assert(vaults[e].apy_details->Some_0.end_time == window_spec(vaults).1);
                }
            }
        }
    }
}

/// The window that spans the windows of all vaults with figures.
pub fn time_window(vaults: &[VaultPerformance]) -> (r: (u64, u64))
    ensures
        r == window_spec(vault_views(vaults@)),
{
    let ghost views = vault_views(vaults@);
    let mut start: u64 = u64::MAX;
    let mut end: u64 = 0;
    let mut i: usize = 0;
    proof {
        assert(views.take(0) =~= Seq::<VaultView>::empty());
    }
    while i < vaults.len()
        invariant
            i <= vaults@.len(),
            views == vault_views(vaults@),
            (start, end) == window_spec(views.take(i as int)),
        decreases vaults.len() - i,
    {
        proof {
            assert(views.take(i + 1).drop_last() =~= views.take(i as int));
            assert(views.take(i + 1).last() == vaults@[i as int]@);
        }
        match vaults[i].apy_details {
            Some(d) => {
                if d.start_time < start {
                    start = d.start_time;
                }
                if d.end_time > end {
                    end = d.end_time;
                }
            },
            None => {},
        }
        i = i + 1;
    }
    proof {
        assert(views.take(i as int) =~= views);
    }
    (start, end)
}

/// Whether some leg draws on the vault of `v`: same vault identifier, same
/// token.
pub open spec fn on_some_leg(v: VaultView, legs: Seq<VaultLeg>) -> bool {
    exists|i: int|
        0 <= i < legs.len() && (#[trigger] legs[i]).vault_id == v.id && legs[i].token == v.token
}

/// The vaults that some leg draws on, in their order.
pub open spec fn vaults_on_legs(vaults: Seq<VaultView>, legs: Seq<VaultLeg>) -> Seq<VaultView> {
    vaults.filter(|v: VaultView| on_some_leg(v, legs))
}

/// Whether some leg draws on the vault of `v`.
pub fn is_on_some_leg(v: &VaultPerformance, order_legs: &Vec<SgVault>) -> (r: bool)
    ensures
        r == on_some_leg(v@, legs(order_legs@)),
{
    let ghost all = legs(order_legs@);
    let mut i: usize = 0;
    while i < order_legs.len()
        invariant
            i <= order_legs@.len(),
            all == legs(order_legs@),
            forall|j: int|
                0 <= j < i ==> !((#[trigger] all[j]).vault_id == v@.id && all[j].token == v@.token),
        decreases order_legs.len() - i,
    {
        if order_legs[i].vault_id.0 == v.id && order_legs[i].token.same_token(&v.token) {
            proof {
                assert(all[i as int].vault_id == v@.id && all[i as int].token == v@.token);
            }
            return true;
        }
        i = i + 1;
    }
    false
}

/// Copies of the vaults that some leg draws on, in their order.
pub fn vaults_of_legs(vaults: &[VaultPerformance], order_legs: &Vec<SgVault>) -> (r: Vec<
    VaultPerformance,
>)
    ensures
        vault_views(r@) == vaults_on_legs(vault_views(vaults@), legs(order_legs@)),
{
    let ghost views = vault_views(vaults@);
    let ghost all = legs(order_legs@);
    let ghost pred = |v: VaultView| on_some_leg(v, all);
    let mut kept: Vec<VaultPerformance> = Vec::new();
    let mut i: usize = 0;
    proof {
        reveal(Seq::filter);
        assert(views.take(0) =~= Seq::<VaultView>::empty());
        assert(vault_views(kept@) =~= views.take(0).filter(pred));
    }
    while i < vaults.len()
        invariant
            i <= vaults@.len(),
            views == vault_views(vaults@),
            all == legs(order_legs@),
            pred == (|v: VaultView| on_some_leg(v, all)),
            vault_views(kept@) == views.take(i as int).filter(pred),
        decreases vaults.len() - i,
    {
        proof {
            reveal(Seq::filter);
            assert(views.take(i + 1).drop_last() =~= views.take(i as int));
            assert(views.take(i + 1).last() == vaults@[i as int]@);
        }
        if is_on_some_leg(&vaults[i], order_legs) {
            let ghost before = vault_views(kept@);
            kept.push(vaults[i].clone());
            proof {
                assert(vault_views(kept@) =~= before.push(vaults@[i as int]@));
            }
        }
        i = i + 1;
    }
    proof {
        assert(views.take(i as int) =~= views);
    }
    kept
}

/// The content of an [`OrderPerformance`].
pub ghost struct ReportView {
    pub order_id: Seq<char>,
    pub order_hash: Seq<char>,
    pub orderbook: Seq<char>,
    pub denominated_performance: Option<DenominationView>,
    pub start_time: u64,
    pub end_time: u64,
    pub inputs_vaults: Seq<VaultView>,
    pub outputs_vaults: Seq<VaultView>,
}

/// The measured performance of an order.
#[derive(Debug, Clone, PartialEq, Eq)]
pub struct OrderPerformance {
    /// The order's subgraph identifier.
    pub order_id: String,
    /// The order's hash.
    pub order_hash: String,
    /// The orderbook that holds the order.
    pub orderbook: String,
    /// The order's performance as a whole, where a denomination was found.
    pub denominated_performance: Option<DenominatedPerformance>,
    /// Start of the measured window.
    pub start_time: u64,
    /// End of the measured window.
    pub end_time: u64,
    /// The figures of the vaults on the order's input legs.
    pub inputs_vaults: Vec<VaultPerformance>,
    /// The figures of the vaults on the order's output legs.
    pub outputs_vaults: Vec<VaultPerformance>,
}

impl View for OrderPerformance {
    type V = ReportView;

    open spec fn view(&self) -> ReportView {
        ReportView {
            order_id: self.order_id@,
            order_hash: self.order_hash@,
            orderbook: self.orderbook@,
            denominated_performance: crate::selection::denomination_option(
                self.denominated_performance,
            ),
            start_time: self.start_time,
            end_time: self.end_time,
            inputs_vaults: vault_views(self.inputs_vaults@),
            outputs_vaults: vault_views(self.outputs_vaults@),
        }
    }
}

/// A result with the successful report replaced by its content.
pub open spec fn report_result(r: Result<OrderPerformance, PerformanceError>) -> Result<
    ReportView,
    PerformanceError,
> {
    match r {
        Ok(v) => Ok(v@),
        Err(e) => Err(e),
    }
}

/// The value of an optional time, or `fallback` where there is none.
pub open spec fn time_or(t: Option<u64>, fallback: u64) -> u64 {
    match t {
        Some(v) => v,
        None => fallback,
    }
}

/// The report on an order. Without trades it is empty and spans the window
/// asked for, from zero where no start was given and to `now` where no end
/// was. With trades it holds the vaults on the order's legs, the window that
/// the vaults' figures span, and the denomination selected among the
/// candidates that the ratios of the order's pairs allow; an arithmetic
/// failure while totalling a denomination is the failure of the whole.
pub open spec fn measure_spec(
    order: OrderView,
    trades: Seq<TradeView>,
    vaults: Seq<VaultView>,
    start_timestamp: Option<u64>,
    end_timestamp: Option<u64>,
    now: u64,
) -> Result<ReportView, PerformanceError> {
    if trades.len() == 0 {
        Ok(
            ReportView {
                order_id: order.id,
                order_hash: order.order_hash,
                orderbook: order.orderbook,
                denominated_performance: None,
                start_time: time_or(start_timestamp, 0),
                end_time: time_or(end_timestamp, now),
                inputs_vaults: Seq::empty(),
                outputs_vaults: Seq::empty(),
            },
        )
    } else {
        let ratios = resolve_pairs(leg_tokens(order.inputs), leg_tokens(order.outputs), trades);
        match denominations_spec(vaults, ratios, vaults.len()) {
            Err(e) => Err(e),
            Ok(d) => Ok(
                ReportView {
                    order_id: order.id,
                    order_hash: order.order_hash,
                    orderbook: order.orderbook,
                    denominated_performance: select_spec(d.ranking, d.candidates),
                    start_time: window_spec(vaults).0,
                    end_time: window_spec(vaults).1,
                    inputs_vaults: vaults_on_legs(vaults, order.inputs),
                    outputs_vaults: vaults_on_legs(vaults, order.outputs),
                },
            ),
        }
    }
}

impl OrderPerformance {
    /// Measures the performance of `order` from its trades and the figures of
    /// its vaults, with `now` as the end of the window where the order has no
    /// trade and no end was asked for. The trades are expected sorted by
    /// falling timestamp.
    pub fn measure_at(
        order: &SgOrder,
        trades: &[SgTrade],
        vaults: &[VaultPerformance],
        start_timestamp: Option<u64>,
        end_timestamp: Option<u64>,
        now: u64,
    ) -> (r: Result<OrderPerformance, PerformanceError>)
        ensures
            report_result(r) == measure_spec(
                order@,
                trade_views(trades@),
                vault_views(vaults@),
                start_timestamp,
                end_timestamp,
                now,
            ),
    {
        if trades.len() == 0 {
            let report = OrderPerformance {
                order_id: order.id.0.clone(),
                order_hash: order.order_hash.0.clone(),
                orderbook: order.orderbook.id.0.clone(),
                denominated_performance: None,
                start_time: match start_timestamp {
                    Some(t) => t,
                    None => 0,
                },
                end_time: match end_timestamp {
                    Some(t) => t,
                    None => now,
                },
                inputs_vaults: Vec::new(),
                outputs_vaults: Vec::new(),
            };
            proof {
                assert(vault_views(report.inputs_vaults@) =~= Seq::<VaultView>::empty());
                assert(vault_views(report.outputs_vaults@) =~= Seq::<VaultView>::empty());
            }
            return Ok(report);
        }
        let (start_time, end_time) = time_window(vaults);
        let inputs = vaults_of_legs(vaults, &order.inputs);
        let outputs = vaults_of_legs(vaults, &order.outputs);
        let ratios = get_order_pairs_ratio(order, trades);
        let found = match denominate(vaults, &ratios) {
            Ok(d) => d,
            Err(e) => {
                return Err(e);
            },
        };
        let chosen = select_denomination(found.ranking.as_slice(), found.candidates.as_slice());
        Ok(
            OrderPerformance {
                order_id: order.id.0.clone(),
                order_hash: order.order_hash.0.clone(),
                orderbook: order.orderbook.id.0.clone(),
                denominated_performance: chosen,
                start_time,
                end_time,
                inputs_vaults: inputs,
                outputs_vaults: outputs,
            },
        )
    }

    /// Measures the performance of `order` from its trades and the figures of
    /// its vaults. Where the order has no trade and no end is asked for, the
    /// window ends at the time of the call; every other part of the report is
    /// decided by the arguments.
    pub fn measure(
        order: &SgOrder,
        trades: &[SgTrade],
        vaults: &[VaultPerformance],
        start_timestamp: Option<u64>,
        end_timestamp: Option<u64>,
    ) -> (r: Result<OrderPerformance, PerformanceError>)
        ensures
            exists|now: u64|
                report_result(r) == #[trigger] measure_spec(
                    order@,
                    trade_views(trades@),
                    vault_views(vaults@),
                    start_timestamp,
                    end_timestamp,
                    now,
                ),
            trades@.len() > 0 || end_timestamp.is_some() ==> report_result(r) == measure_spec(
                order@,
                trade_views(trades@),
                vault_views(vaults@),
                start_timestamp,
                end_timestamp,
                0,
            ),
    {
        let now = if trades.len() == 0 && end_timestamp.is_none() {
            unix_now()
        } else {
            0
        };
        OrderPerformance::measure_at(order, trades, vaults, start_timestamp, end_timestamp, now)
    }
}

/// The report is decided by the arguments. The time of the call enters in one
/// place only, the end of the window of an order without trades where no end
/// was asked for: two measurements of the same arguments at different times
/// fail alike or agree on every other part, the selected denomination among
/// them.
pub proof fn lemma_measure_independent_of_clock(
    order: OrderView,
    trades: Seq<TradeView>,
    vaults: Seq<VaultView>,
    start_timestamp: Option<u64>,
    end_timestamp: Option<u64>,
    now: u64,
    again: u64,
)
    ensures
        trades.len() > 0 || end_timestamp.is_some() ==> measure_spec(
            order,
            trades,
            vaults,
            start_timestamp,
            end_timestamp,
            now,
        ) == measure_spec(order, trades, vaults, start_timestamp, end_timestamp, again),
        match (
            measure_spec(order, trades, vaults, start_timestamp, end_timestamp, now),
            measure_spec(order, trades, vaults, start_timestamp, end_timestamp, again),
        ) {
            (Ok(a), Ok(b)) => a == (ReportView { end_time: a.end_time, ..b }),
            (Err(a), Err(b)) => a == b,
            _ => false,
        },
{
}

/// Whether some vault among the first `n` has figures and token `t`.
pub open spec fn token_with_figures(vaults: Seq<VaultView>, n: int, t: TokenView) -> bool {
    exists|j: int|
        0 <= j < n && (#[trigger] vaults[j]).apy_details.is_some() && vaults[j].token == t
}

/// No two candidates share a token, and each candidate is denominated in the
/// token of a vault with figures: a token has at most one candidate.
pub proof fn lemma_candidates_distinct(
    vaults: Seq<VaultView>,
    ratios: Map<PairView, Option<SignedRaw>>,
    n: nat,
)
    requires
        n <= vaults.len(),
    ensures
        denominations_spec(vaults, ratios, n) matches Ok(d) ==> (forall|i: int|
            0 <= i < d.candidates.len() ==> token_with_figures(
                vaults,
                n as int,
                (#[trigger] d.candidates[i]).token,
            )) && (forall|i: int, j: int|
            0 <= i < j < d.candidates.len() ==> (#[trigger] d.candidates[i]).token
                != (#[trigger] d.candidates[j]).token),
    decreases n,
{
    if n > 0 {
        lemma_candidates_distinct(vaults, ratios, (n - 1) as nat);
        match denominations_spec(vaults, ratios, (n - 1) as nat) {
            Ok(before) => {
                match denominations_spec(vaults, ratios, n) {
                    Ok(after) => {
                        let v = vaults[n - 1];
                        assert forall|i: int|
                            0 <= i < after.candidates.len() implies token_with_figures(
                            vaults,
                            n as int,
                            (#[trigger] after.candidates[i]).token,
                        ) by {
                            if i < before.candidates.len() {
                                assert(after.candidates[i] == before.candidates[i]);
                                assert(token_with_figures(
                                    vaults,
                                    n - 1,
                                    before.candidates[i].token,
                                ));
                                let j = choose|j: int|
                                    0 <= j < n - 1 && (#[trigger] vaults[j]).apy_details.is_some()
                                        && vaults[j].token == before.candidates[i].token;
                                assert(vaults[j].apy_details.is_some() && vaults[j].token
                                    == after.candidates[i].token);
                            } else {
                                assert(after.candidates[i].token == v.token);
                                assert(vaults[n - 1].apy_details.is_some());
                            }
                        }
                        assert forall|i: int, j: int|
                            0 <= i < j < after.candidates.len() implies (
                        #[trigger] after.candidates[i]).token != (
                        #[trigger] after.candidates[j]).token by {
                            assert(after.candidates[i] == before.candidates[i]);
                            if j < before.candidates.len() {
                                assert(after.candidates[j] == before.candidates[j]);
                            } else {
                                assert(after.candidates[j].token == v.token);
                                assert(!seen_before(vaults, n - 1));
                                assert(token_with_figures(
                                    vaults,
                                    n - 1,
                                    before.candidates[i].token,
                                ));
                                let k = choose|k: int|
                                    0 <= k < n - 1 && (#[trigger] vaults[k]).apy_details.is_some()
                                        && vaults[k].token == before.candidates[i].token;
                                if before.candidates[i].token == v.token {
                                    assert(vaults[k].apy_details.is_some() && vaults[k].token
                                        == vaults[n - 1].token);
                                }
                            }
                        }
                    },
                    Err(_) => {},
                }
            },
            Err(_) => {},
        }
    }
}

} // verus!
