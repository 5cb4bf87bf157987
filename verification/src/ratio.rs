//! Direct exchange ratios between the tokens of an order, read off its
//! latest trades.

use vstd::prelude::*;
use crate::fixed::{lemma_value_injective, mul18_spec, one18};
use crate::parse::{parse_u64, u64_literal};
use crate::signed::{SignedAmount, SignedRaw};
use crate::types::{
    inverse_ratio_spec, leg_tokens, lemma_ratio_times_inverse_at_most_one, ratio_spec, trade_views,
    PairView, SgErc20, SgOrder, SgTrade, SgVault, TokenPair, TokenView, TradeView,
};

verus! {

/// The content of an optional ratio.
pub open spec fn ratio_view(r: Option<SignedAmount>) -> Option<SignedRaw> {
    match r {
        Some(v) => Some(v@),
        None => None,
    }
}

/// A pair of tokens with its ratio, where one could be resolved.
#[derive(Debug, Clone, PartialEq, Eq)]
pub struct PairRatio {
    pub pair: TokenPair,
    pub ratio: Option<SignedAmount>,
}

/// The map that a list of entries stands for; a later entry overrides an
/// earlier one with the same pair.
pub open spec fn entries_map(s: Seq<PairRatio>) -> Map<PairView, Option<SignedRaw>>
    decreases s.len(),
{
    if s.len() == 0 {
        Map::empty()
    } else {
        entries_map(s.drop_last()).insert(s.last().pair@, ratio_view(s.last().ratio))
    }
}

/// A map from ordered token pairs to their ratio, kept as a list of entries in
/// which no pair occurs twice.
#[derive(Debug)]
pub struct PairRatioMap {
    entries: Vec<PairRatio>,
}

impl View for PairRatioMap {
    type V = Map<PairView, Option<SignedRaw>>;

    closed spec fn view(&self) -> Map<PairView, Option<SignedRaw>> {
        entries_map(self.entries@)
    }
}

/// No pair occurs twice among the entries.
pub open spec fn distinct_pairs(s: Seq<PairRatio>) -> bool {
    forall|i: int, j: int| 0 <= i < j < s.len() ==> s[i].pair@ != s[j].pair@
}

/// The map of a list holds exactly the pairs of its entries, and for a list
/// without repetition each entry's own ratio.
pub proof fn lemma_entries_map(s: Seq<PairRatio>)
    ensures
        forall|k: PairView|
            entries_map(s).contains_key(k) <==> exists|i: int|
                0 <= i < s.len() && #[trigger] s[i].pair@ == k,
        distinct_pairs(s) ==> forall|i: int|
            0 <= i < s.len() ==> entries_map(s)[#[trigger] s[i].pair@] == ratio_view(s[i].ratio),
    decreases s.len(),
{
    if s.len() > 0 {
        let front = s.drop_last();
        lemma_entries_map(front);
        assert forall|k: PairView|
            entries_map(s).contains_key(k) <==> exists|i: int|
                0 <= i < s.len() && #[trigger] s[i].pair@ == k by {
            if entries_map(s).contains_key(k) {
                if k == s.last().pair@ {
                    assert(s[s.len() - 1].pair@ == k);
                } else {
                    let i = choose|i: int| 0 <= i < front.len() && #[trigger] front[i].pair@ == k;
                    assert(s[i].pair@ == k);
                }
            }
            if exists|i: int| 0 <= i < s.len() && #[trigger] s[i].pair@ == k {
                let i = choose|i: int| 0 <= i < s.len() && #[trigger] s[i].pair@ == k;
                if i < s.len() - 1 {
                    assert(front[i].pair@ == k);
                }
            }
        }
        if distinct_pairs(s) {
            assert(distinct_pairs(front)) by {
                assert forall|i: int, j: int| 0 <= i < j < front.len() implies front[i].pair@
                    != front[j].pair@ by {
                    assert(s[i].pair@ != s[j].pair@);
                }
            }
            assert forall|i: int| 0 <= i < s.len() implies entries_map(s)[#[trigger] s[i].pair@]
                == ratio_view(s[i].ratio) by {
                if i < s.len() - 1 {
                    assert(s[i].pair@ != s[s.len() - 1].pair@);
                    assert(front[i].pair@ == s[i].pair@);
                }
            }
        }
    }
}

impl PairRatioMap {
    /// No pair occurs twice among the entries.
    #[verifier::type_invariant]
    spec fn wf(&self) -> bool {
        distinct_pairs(self.entries@)
    }

    /// The empty map.
    pub fn new() -> (r: PairRatioMap)
        ensures
            r@ == Map::<PairView, Option<SignedRaw>>::empty(),
    {
        PairRatioMap { entries: Vec::new() }
    }

    /// The number of pairs that the map holds.
    pub fn len(&self) -> (r: usize)
        ensures
            self@.dom().finite(),
            r == self@.dom().len(),
    {
        proof {
            use_type_invariant(self);
            lemma_entries_map_len(self.entries@);
        }
        self.entries.len()
    }

    /// The position of the entry for `pair`, where there is one.
    fn position(&self, pair: &TokenPair) -> (r: Option<usize>)
        ensures
            match r {
                Some(i) => i < self.entries@.len() && self.entries@[i as int].pair@ == pair@
                    && self@.contains_key(pair@) && self@[pair@] == ratio_view(
                    self.entries@[i as int].ratio,
                ),
                None => !self@.contains_key(pair@),
            },
    {
        proof {
            use_type_invariant(self);
        }
        let mut i: usize = 0;
        while i < self.entries.len()
            invariant
                distinct_pairs(self.entries@),
                i <= self.entries@.len(),
                forall|j: int| 0 <= j < i ==> self.entries@[j].pair@ != pair@,
            decreases self.entries.len() - i,
        {
            if self.entries[i].pair.same_pair(pair) {
                proof {
                    lemma_entries_map(self.entries@);
                    assert(self.entries@[i as int].pair@ == pair@);
                }
                return Some(i);
            }
            i = i + 1;
        }
        proof {
            lemma_entries_map(self.entries@);
        }
        None
    }

    /// Whether the map has an entry for `pair`, resolved or not.
    pub fn contains_key(&self, pair: &TokenPair) -> (r: bool)
        ensures
            r == self@.contains_key(pair@),
    {
        self.position(pair).is_some()
    }

    /// The entry for `pair`: nothing where the map has none, else its ratio,
    /// which is itself nothing where the pair could not be resolved.
    pub fn get(&self, pair: &TokenPair) -> (r: Option<Option<SignedAmount>>)
        ensures
            match r {
                Some(ratio) => self@.contains_key(pair@) && self@[pair@] == ratio_view(ratio),
                None => !self@.contains_key(pair@),
            },
    {
        match self.position(pair) {
            Some(i) => Some(self.entries[i].ratio),
            None => None,
        }
    }

    /// Whether the two maps hold the same pairs with the same ratios, in
    /// whatever order they were entered.
    pub fn same_as(&self, other: &PairRatioMap) -> (r: bool)
        ensures
            r == (self@ == other@),
    {
        proof {
            use_type_invariant(self);
            use_type_invariant(other);
            lemma_entries_map_len(self.entries@);
            lemma_entries_map_len(other.entries@);
            lemma_entries_map(self.entries@);
        }
        if self.entries.len() != other.entries.len() {
            return false;
        }
        let mut i: usize = 0;
        while i < self.entries.len()
            invariant
                i <= self.entries@.len(),
                distinct_pairs(self.entries@),
                forall|j: int|
                    0 <= j < i ==> other@.contains_key(#[trigger] self.entries@[j].pair@)
                        && other@[self.entries@[j].pair@] == ratio_view(self.entries@[j].ratio),
            decreases self.entries.len() - i,
        {
            let mine = self.entries[i].ratio;
            let theirs = other.get(&self.entries[i].pair);
            let same = match theirs {
                Some(Some(t)) => match mine {
                    Some(m) => m.magnitude == t.magnitude && m.negative == t.negative,
                    None => false,
                },
                Some(None) => mine.is_none(),
                None => false,
            };
            proof {
                lemma_entries_map(self.entries@);
                assert(self@.contains_key(self.entries@[i as int].pair@));
                assert(self@[self.entries@[i as int].pair@] == ratio_view(mine));
                if let (Some(m), Some(Some(t))) = (mine, theirs) {
                    if m.magnitude@ == t.magnitude@ {
                        lemma_value_injective(m.magnitude, t.magnitude);
                    }
                }
            }
            if !same {
                return false;
            }
            i = i + 1;
        }
        proof {
            lemma_entries_map(self.entries@);
            assert(self@.dom().subset_of(other@.dom())) by {
                assert forall|k: PairView| self@.dom().contains(k) implies other@.dom().contains(
                    k,
                ) by {
                    let j = choose|j: int|
                        0 <= j < self.entries@.len() && #[trigger] self.entries@[j].pair@ == k;
                    assert(other@.contains_key(self.entries@[j].pair@));
                }
            }
            vstd::set_lib::lemma_subset_equality(self@.dom(), other@.dom());
            assert forall|k: PairView| self@.dom().contains(k) implies self@[k] == other@[k] by {
                let j = choose|j: int|
                    0 <= j < self.entries@.len() && #[trigger] self.entries@[j].pair@ == k;
                assert(self@[self.entries@[j].pair@] == ratio_view(self.entries@[j].ratio));
            }
            assert(self@ =~= other@);
        }
        true
    }

    /// Sets the entry for `pair` to `ratio`, in place of an earlier one.
    pub fn insert(&mut self, pair: TokenPair, ratio: Option<SignedAmount>)
        ensures
            final(self)@ == old(self)@.insert(pair@, ratio_view(ratio)),
    {
        let found = self.position(&pair);
        proof {
            use_type_invariant(&*self);
            lemma_entries_map(self.entries@);
        }
        let ghost before = self.entries@;
        let mut entries: Vec<PairRatio> = Vec::new();
        core::mem::swap(&mut self.entries, &mut entries);
        match found {
            Some(i) => {
                entries.set(i, PairRatio { pair, ratio });
                proof {
                    lemma_replace_entry(before, i as int, entries@[i as int]);
                }
            },
            None => {
                entries.push(PairRatio { pair, ratio });
                proof {
                    assert(entries@.drop_last() =~= before);
                }
            },
        }
        core::mem::swap(&mut self.entries, &mut entries);
    }
}

/// Replacing the entry at `i` by one with the same pair keeps the list free
/// of repetition and sets that pair's ratio in the map.
pub proof fn lemma_replace_entry(s: Seq<PairRatio>, i: int, e: PairRatio)
    requires
        0 <= i < s.len(),
        distinct_pairs(s),
        e.pair@ == s[i].pair@,
    ensures
        distinct_pairs(s.update(i, e)),
        entries_map(s.update(i, e)) == entries_map(s).insert(e.pair@, ratio_view(e.ratio)),
{
    let t = s.update(i, e);
    assert(distinct_pairs(t)) by {
        assert forall|a: int, b: int| 0 <= a < b < t.len() implies t[a].pair@ != t[b].pair@ by {
            assert(s[a].pair@ != s[b].pair@);
        }
    }
    lemma_entries_map(s);
    lemma_entries_map(t);
    let m = entries_map(s).insert(e.pair@, ratio_view(e.ratio));
    assert forall|k: PairView| entries_map(t).contains_key(k) <==> m.contains_key(k) by {
        if entries_map(t).contains_key(k) {
            let j = choose|j: int| 0 <= j < t.len() && #[trigger] t[j].pair@ == k;
            assert(s[j].pair@ == k);
        }
        if m.contains_key(k) {
            if k == e.pair@ {
                assert(t[i].pair@ == k);
            } else {
                let j = choose|j: int| 0 <= j < s.len() && #[trigger] s[j].pair@ == k;
                assert(t[j].pair@ == k);
            }
        }
    }
    assert forall|k: PairView| entries_map(t).contains_key(k) implies entries_map(t)[k]
        == m[k] by {
        let j = choose|j: int| 0 <= j < t.len() && #[trigger] t[j].pair@ == k;
        assert(entries_map(t)[t[j].pair@] == ratio_view(t[j].ratio));
        if j != i {
            assert(s[j].pair@ != s[i].pair@);
            assert(entries_map(s)[s[j].pair@] == ratio_view(s[j].ratio));
        }
    }
    assert(entries_map(t) =~= m);
}

/// Whether a trade moved value between tokens `a` and `b`, in either
/// direction.
pub open spec fn trade_between(t: TradeView, a: TokenView, b: TokenView) -> bool {
    (t.input_token == a && t.output_token == b) || (t.output_token == a && t.input_token == b)
}

/// The first trade of the list between tokens `a` and `b`. In a list sorted by
/// falling timestamp this is the latest one.
pub open spec fn first_trade_between(trades: Seq<TradeView>, a: TokenView, b: TokenView) -> Option<
    TradeView,
>
    decreases trades.len(),
{
    if trades.len() == 0 {
        None
    } else if trade_between(trades.first(), a, b) {
        Some(trades.first())
    } else {
        first_trade_between(trades.drop_first(), a, b)
    }
}

/// The ratio and the inverse ratio of the first trade between `a` and `b`, in
/// that order. There is none where no trade links the two tokens, or where
/// either ratio of that trade fails.
pub open spec fn pair_ratios(trades: Seq<TradeView>, a: TokenView, b: TokenView) -> Option<
    (SignedRaw, SignedRaw),
> {
    match first_trade_between(trades, a, b) {
        None => None,
        Some(t) => match (ratio_spec(t), inverse_ratio_spec(t)) {
            (Ok(r), Ok(v)) => Some((r, v)),
            _ => None,
        },
    }
}

/// The first component of an optional pair.
pub open spec fn ratio_of(r: Option<(SignedRaw, SignedRaw)>) -> Option<SignedRaw> {
    match r {
        Some((ratio, _)) => Some(ratio),
        None => None,
    }
}

/// The second component of an optional pair.
pub open spec fn inverse_of(r: Option<(SignedRaw, SignedRaw)>) -> Option<SignedRaw> {
    match r {
        Some((_, inverse)) => Some(inverse),
        None => None,
    }
}

/// Resolves input token `a` against output token `b`: nothing changes where
/// the two are one token or where the map already holds the pair in either
/// order; else both orders enter the map together.
pub open spec fn resolve_step(
    m: Map<PairView, Option<SignedRaw>>,
    a: TokenView,
    b: TokenView,
    trades: Seq<TradeView>,
) -> Map<PairView, Option<SignedRaw>> {
    let forward = PairView { input: a, output: b };
    let backward = PairView { input: b, output: a };
    if a != b && !m.contains_key(forward) && !m.contains_key(backward) {
        m.insert(forward, ratio_of(pair_ratios(trades, a, b))).insert(
            backward,
            inverse_of(pair_ratios(trades, a, b)),
        )
    } else {
        m
    }
}

/// Resolves input token `a` against each output token in turn.
pub open spec fn resolve_row(
    m: Map<PairView, Option<SignedRaw>>,
    a: TokenView,
    outputs: Seq<TokenView>,
    trades: Seq<TradeView>,
) -> Map<PairView, Option<SignedRaw>>
    decreases outputs.len(),
{
    if outputs.len() == 0 {
        m
    } else {
        resolve_step(resolve_row(m, a, outputs.drop_last(), trades), a, outputs.last(), trades)
    }
}

/// Resolves each input token against each output token, inputs outermost.
pub open spec fn resolve_pairs(
    inputs: Seq<TokenView>,
    outputs: Seq<TokenView>,
    trades: Seq<TradeView>,
) -> Map<PairView, Option<SignedRaw>>
    decreases inputs.len(),
{
    if inputs.len() == 0 {
        Map::empty()
    } else {
        resolve_row(
            resolve_pairs(inputs.drop_last(), outputs, trades),
            inputs.last(),
            outputs,
            trades,
        )
    }
}

/// The tokens of a list of vaults.
spec fn vault_tokens(vaults: Seq<SgVault>) -> Seq<TokenView> {
    vaults.map_values(|v: SgVault| v.token@)
}

/// Trades that do not link `a` and `b` can be dropped from the front.
pub proof fn lemma_first_trade_skip(trades: Seq<TradeView>, a: TokenView, b: TokenView, k: int)
    requires
        0 <= k <= trades.len(),
        forall|j: int| 0 <= j < k ==> !trade_between(#[trigger] trades[j], a, b),
    ensures
        first_trade_between(trades, a, b) == first_trade_between(trades.skip(k), a, b),
    decreases k,
{
    if k == 0 {
        assert(trades.skip(0) =~= trades);
    } else {
        assert(!trade_between(trades[0], a, b));
        assert forall|j: int| 0 <= j < k - 1 implies !trade_between(
            #[trigger] trades.drop_first()[j],
            a,
            b,
        ) by {
            assert(trades.drop_first()[j] == trades[j + 1]);
        }
        lemma_first_trade_skip(trades.drop_first(), a, b, k - 1);
        assert(trades.drop_first().skip(k - 1) =~= trades.skip(k));
    }
}

/// The ratio and inverse ratio of the first trade between `a` and `b`.
pub fn latest_pair_ratios(trades: &[SgTrade], a: &SgErc20, b: &SgErc20) -> (r: Option<
    (SignedAmount, SignedAmount),
>)
    ensures
        match r {
            Some((ratio, inverse)) => pair_ratios(trade_views(trades@), a@, b@) == Some(
                (ratio@, inverse@),
            ),
            None => pair_ratios(trade_views(trades@), a@, b@).is_none(),
        },
{
    let ghost views = trade_views(trades@);
    let mut i: usize = 0;
    while i < trades.len()
        invariant
            i <= trades@.len(),
            views == trade_views(trades@),
            forall|j: int| 0 <= j < i ==> !trade_between(#[trigger] views[j], a@, b@),
        decreases trades.len() - i,
    {
        let t = &trades[i];
        let input = &t.input_vault_balance_change.vault.token;
        let output = &t.output_vault_balance_change.vault.token;
        let forward = input.same_token(a) && output.same_token(b);
        let backward = output.same_token(a) && input.same_token(b);
        if forward || backward {
            proof {
                lemma_first_trade_skip(views, a@, b@, i as int);
                assert(views.skip(i as int).first() == t@);
            }
            return match (t.ratio(), t.inverse_ratio()) {
                (Ok(ratio), Ok(inverse)) => Some((ratio, inverse)),
                _ => None,
            };
        }
        i = i + 1;
    }
    proof {
        lemma_first_trade_skip(views, a@, b@, i as int);
        assert(views.skip(i as int) =~= Seq::<TradeView>::empty());
    }
    None
}

/// Derives, for every pair of distinct tokens made of an input and an output
/// of the order, the ratio of the first trade between the two and, for the
/// swapped pair, that trade's inverse ratio. A pair without such a trade, or
/// whose trade gives no ratio, is entered as unresolved. The trades are
/// expected sorted by falling timestamp, which makes the first the latest.
pub fn get_order_pairs_ratio(order: &SgOrder, trades: &[SgTrade]) -> (r: PairRatioMap)
    ensures
        r@ == resolve_pairs(
            leg_tokens(order@.inputs),
            leg_tokens(order@.outputs),
            trade_views(trades@),
        ),
{
    let ghost ins = vault_tokens(order.inputs@);
    let ghost outs = vault_tokens(order.outputs@);
    proof {
        assert(ins =~= leg_tokens(order@.inputs));
        assert(outs =~= leg_tokens(order@.outputs));
    }
    let ghost views = trade_views(trades@);
    let mut map = PairRatioMap::new();
    let mut i: usize = 0;
    proof {
        assert(ins.take(0) =~= Seq::<TokenView>::empty());
    }
    while i < order.inputs.len()
        invariant
            i <= order.inputs@.len(),
            ins == vault_tokens(order.inputs@),
            outs == vault_tokens(order.outputs@),
            views == trade_views(trades@),
            map@ == resolve_pairs(ins.take(i as int), outs, views),
        decreases order.inputs.len() - i,
    {
        let ghost start = map@;
        let mut j: usize = 0;
        proof {
            assert(outs.take(0) =~= Seq::<TokenView>::empty());
        }
        while j < order.outputs.len()
            invariant
                i < order.inputs@.len(),
                j <= order.outputs@.len(),
                ins == vault_tokens(order.inputs@),
                outs == vault_tokens(order.outputs@),
                views == trade_views(trades@),
                map@ == resolve_row(start, ins[i as int], outs.take(j as int), views),
            decreases order.outputs.len() - j,
        {
            let input = &order.inputs[i].token;
            let output = &order.outputs[j].token;
            let forward = TokenPair { input: input.clone(), output: output.clone() };
            let backward = TokenPair { input: output.clone(), output: input.clone() };
            proof {
                assert(outs.take(j + 1).drop_last() =~= outs.take(j as int));
                assert(outs.take(j + 1).last() == output@);
                assert(ins[i as int] == input@);
            }
            if !input.same_token(output) && !(map.contains_key(&forward) || map.contains_key(
                &backward,
            )) {
                let found = latest_pair_ratios(trades, input, output);
                let (ratio, inverse) = match found {
                    Some((ratio, inverse)) => (Some(ratio), Some(inverse)),
                    None => (None, None),
                };
                map.insert(forward, ratio);
                map.insert(backward, inverse);
            }
            j = j + 1;
        }
        proof {
            assert(outs.take(j as int) =~= outs);
            assert(ins.take(i + 1).drop_last() =~= ins.take(i as int));
            assert(ins.take(i + 1).last() == ins[i as int]);
        }
        i = i + 1;
    }
    proof {
        assert(ins.take(i as int) =~= ins);
    }
    map
}

/// The same pair in the other order.
pub open spec fn swapped(k: PairView) -> PairView {
    PairView { input: k.output, output: k.input }
}

/// Whether `x` and `y` are the two ratios `r` of one trade, in one order or
/// the other, or both unresolved where there is no such trade.
pub open spec fn mutual_ratios(
    x: Option<SignedRaw>,
    y: Option<SignedRaw>,
    r: Option<(SignedRaw, SignedRaw)>,
) -> bool {
    match r {
        None => x.is_none() && y.is_none(),
        Some((ratio, inverse)) => (x == Some(ratio) && y == Some(inverse)) || (x == Some(inverse)
            && y == Some(ratio)),
    }
}

/// Every key joins two distinct tokens, comes with its swapped key, and the
/// two entries are the ratio and inverse ratio of the first trade between the
/// two tokens.
pub open spec fn symmetric_entries(
    m: Map<PairView, Option<SignedRaw>>,
    trades: Seq<TradeView>,
) -> bool {
    forall|k: PairView| #[trigger]
        m.contains_key(k) ==> k.input != k.output && m.contains_key(swapped(k)) && mutual_ratios(
            m[k],
            m[swapped(k)],
            pair_ratios(trades, k.input, k.output),
        )
}

/// Whether `k` joins an input token and a different output token, in either
/// order.
pub open spec fn joins_input_and_output(
    k: PairView,
    inputs: Seq<TokenView>,
    outputs: Seq<TokenView>,
) -> bool {
    k.input != k.output && ((inputs.contains(k.input) && outputs.contains(k.output)) || (
    inputs.contains(k.output) && outputs.contains(k.input)))
}

/// The first trade between two tokens does not depend on their order.
pub proof fn lemma_first_trade_symmetric(trades: Seq<TradeView>, a: TokenView, b: TokenView)
    ensures
        first_trade_between(trades, a, b) == first_trade_between(trades, b, a),
        pair_ratios(trades, a, b) == pair_ratios(trades, b, a),
    decreases trades.len(),
{
    if trades.len() > 0 {
        lemma_first_trade_symmetric(trades.drop_first(), a, b);
    }
}

/// One step keeps the entries symmetric and adds at most the two orders of
/// its pair.
proof fn lemma_resolve_step(
    m: Map<PairView, Option<SignedRaw>>,
    a: TokenView,
    b: TokenView,
    trades: Seq<TradeView>,
)
    requires
        symmetric_entries(m, trades),
    ensures
        symmetric_entries(resolve_step(m, a, b, trades), trades),
        forall|k: PairView|
            resolve_step(m, a, b, trades).contains_key(k) <==> m.contains_key(k) || (a != b && (k
                == (PairView { input: a, output: b }) || k == (PairView { input: b, output: a }))),
{
    let forward = PairView { input: a, output: b };
    let backward = PairView { input: b, output: a };
    let next = resolve_step(m, a, b, trades);
    lemma_first_trade_symmetric(trades, a, b);
    assert(swapped(forward) == backward);
    assert(swapped(backward) == forward);
    assert forall|k: PairView| #[trigger] next.contains_key(k) implies k.input != k.output
        && next.contains_key(swapped(k)) && mutual_ratios(
        next[k],
        next[swapped(k)],
        pair_ratios(trades, k.input, k.output),
    ) by {
        if a != b && !m.contains_key(forward) && !m.contains_key(backward) {
            if k == forward {
            } else if k == backward {
            } else {
                assert(m.contains_key(k));
                assert(swapped(swapped(k)) == k);
                assert(swapped(k) != forward);
                assert(swapped(k) != backward);
            }
        } else {
            assert(m.contains_key(k));
        }
    }
    assert forall|k: PairView|
        next.contains_key(k) <==> m.contains_key(k) || (a != b && (k == forward || k
            == backward)) by {
        if a != b && (m.contains_key(forward) || m.contains_key(backward)) {
            if m.contains_key(forward) {
                assert(m.contains_key(swapped(forward)));
            } else {
                assert(m.contains_key(swapped(backward)));
            }
        }
    }
}

/// A row keeps the entries symmetric and adds the pairs of its input token
/// with each different output token, in both orders.
proof fn lemma_resolve_row(
    m: Map<PairView, Option<SignedRaw>>,
    a: TokenView,
    outputs: Seq<TokenView>,
    trades: Seq<TradeView>,
)
    requires
        symmetric_entries(m, trades),
    ensures
        symmetric_entries(resolve_row(m, a, outputs, trades), trades),
        forall|k: PairView|
            resolve_row(m, a, outputs, trades).contains_key(k) <==> m.contains_key(k) || (k.input
                != k.output && ((k.input == a && outputs.contains(k.output)) || (k.output == a
                && outputs.contains(k.input)))),
    decreases outputs.len(),
{
    if outputs.len() > 0 {
        let front = outputs.drop_last();
        let b = outputs.last();
        let before = resolve_row(m, a, front, trades);
        lemma_resolve_row(m, a, front, trades);
        lemma_resolve_step(before, a, b, trades);
        let after = resolve_row(m, a, outputs, trades);
        assert forall|k: PairView|
            after.contains_key(k) <==> m.contains_key(k) || (k.input != k.output && ((k.input == a
                && outputs.contains(k.output)) || (k.output == a && outputs.contains(
                k.input,
            )))) by {
            assert(outputs[outputs.len() - 1] == b);
            assert forall|x: TokenView| outputs.contains(x) <==> front.contains(x) || x == b by {
                if outputs.contains(x) {
                    let i = choose|i: int| 0 <= i < outputs.len() && outputs[i] == x;
                    if i < outputs.len() - 1 {
                        assert(front[i] == x);
                    }
                }
                if front.contains(x) {
                    let i = choose|i: int| 0 <= i < front.len() && front[i] == x;
                    assert(outputs[i] == x);
                }
            }
        }
    }
}

/// The resolved map is symmetric. It never holds a pair of one token with
/// itself; its keys are exactly the pairs that join an input token of the
/// order with a different output token, in both orders; and the entries of a
/// pair and of its swapped pair are both unresolved or are the ratio and the
/// inverse ratio of the same trade, the first between the two tokens.
pub proof fn lemma_resolved_pairs_symmetric(
    inputs: Seq<TokenView>,
    outputs: Seq<TokenView>,
    trades: Seq<TradeView>,
)
    ensures
        symmetric_entries(resolve_pairs(inputs, outputs, trades), trades),
        forall|k: PairView|
            resolve_pairs(inputs, outputs, trades).contains_key(k) <==> joins_input_and_output(
                k,
                inputs,
                outputs,
            ),
    decreases inputs.len(),
{
    if inputs.len() > 0 {
        let front = inputs.drop_last();
        let a = inputs.last();
        lemma_resolved_pairs_symmetric(front, outputs, trades);
        lemma_resolve_row(resolve_pairs(front, outputs, trades), a, outputs, trades);
        assert forall|k: PairView|
            resolve_pairs(inputs, outputs, trades).contains_key(k) <==> joins_input_and_output(
                k,
                inputs,
                outputs,
            ) by {
            let base = resolve_pairs(front, outputs, trades);
            assert(resolve_pairs(inputs, outputs, trades) == resolve_row(base, a, outputs, trades));
            assert(base.contains_key(k) <==> joins_input_and_output(k, front, outputs));
            assert(resolve_row(base, a, outputs, trades).contains_key(k) <==> base.contains_key(k)
                || (k.input != k.output && ((k.input == a && outputs.contains(k.output)) || (
            k.output == a && outputs.contains(k.input)))));
            assert(inputs[inputs.len() - 1] == a);
            assert forall|x: TokenView| inputs.contains(x) <==> front.contains(x) || x == a by {
                if inputs.contains(x) {
                    let i = choose|i: int| 0 <= i < inputs.len() && inputs[i] == x;
                    if i < inputs.len() - 1 {
                        assert(front[i] == x);
                    }
                }
                if front.contains(x) {
                    let i = choose|i: int| 0 <= i < front.len() && front[i] == x;
                    assert(inputs[i] == x);
                }
            }
        }
    }
}

/// The time of a trade in seconds, where its timestamp is a decimal literal
/// below `2^64`.
pub open spec fn trade_time(t: TradeView) -> Option<nat> {
    match u64_literal(t.timestamp) {
        Ok(v) => Some(v),
        Err(_) => None,
    }
}

/// Whether every trade has a time and no trade is later than one before it
/// in the list.
pub open spec fn sorted_by_falling_time(trades: Seq<TradeView>) -> bool {
    &&& forall|i: int| 0 <= i < trades.len() ==> trade_time(#[trigger] trades[i]).is_some()
    &&& forall|i: int, j: int|
        0 <= i < j < trades.len() ==> trade_time(#[trigger] trades[i])->Some_0 >= trade_time(
            #[trigger] trades[j],
        )->Some_0
}

/// In a list sorted by falling time the first trade between two tokens is
/// their latest: no trade between the two is later. There is none exactly
/// when no trade links the two.
pub proof fn lemma_first_trade_is_latest(trades: Seq<TradeView>, a: TokenView, b: TokenView)
    requires
        sorted_by_falling_time(trades),
    ensures
        match first_trade_between(trades, a, b) {
            Some(t) => trades.contains(t) && trade_between(t, a, b) && forall|j: int|
                0 <= j < trades.len() && trade_between(#[trigger] trades[j], a, b) ==> trade_time(
                    trades[j],
                )->Some_0 <= trade_time(t)->Some_0,
            None => forall|j: int|
                0 <= j < trades.len() ==> !trade_between(#[trigger] trades[j], a, b),
        },
    decreases trades.len(),
{
    if trades.len() > 0 {
        let rest = trades.drop_first();
        assert(sorted_by_falling_time(rest)) by {
            assert forall|i: int| 0 <= i < rest.len() implies trade_time(
                #[trigger] rest[i],
            ).is_some() by {
                assert(rest[i] == trades[i + 1]);
            }
            assert forall|i: int, j: int| 0 <= i < j < rest.len() implies trade_time(
                #[trigger] rest[i],
            )->Some_0 >= trade_time(#[trigger] rest[j])->Some_0 by {
                assert(rest[i] == trades[i + 1]);
                assert(rest[j] == trades[j + 1]);
            }
        }
        lemma_first_trade_is_latest(rest, a, b);
        if trade_between(trades.first(), a, b) {
            assert(trades[0] == trades.first());
            assert forall|j: int|
                0 <= j < trades.len() && trade_between(
                    #[trigger] trades[j],
                    a,
                    b,
                ) implies trade_time(trades[j])->Some_0 <= trade_time(
                trades.first(),
            )->Some_0 by {
                if j > 0 {
                    assert(trade_time(trades[0])->Some_0 >= trade_time(trades[j])->Some_0);
                }
            }
        } else {
            match first_trade_between(rest, a, b) {
                Some(t) => {
                    let i = choose|i: int| 0 <= i < rest.len() && rest[i] == t;
                    assert(trades[i + 1] == t);
                    assert forall|j: int|
                        0 <= j < trades.len() && trade_between(
                            #[trigger] trades[j],
                            a,
                            b,
                        ) implies trade_time(trades[j])->Some_0 <= trade_time(t)->Some_0 by {
                        assert(j > 0);
                        assert(rest[j - 1] == trades[j]);
                    }
                },
                None => {
                    assert forall|j: int| 0 <= j < trades.len() implies !trade_between(
                        #[trigger] trades[j],
                        a,
                        b,
                    ) by {
                        if j > 0 {
                            assert(rest[j - 1] == trades[j]);
                        }
                    }
                },
            }
        }
    }
}

/// The two entries of a resolved pair multiply to at most one and have the
/// same sign: each is the inverse of the other up to truncation.
pub proof fn lemma_resolved_entries_are_inverse(
    inputs: Seq<TokenView>,
    outputs: Seq<TokenView>,
    trades: Seq<TradeView>,
    k: PairView,
)
    requires
        resolve_pairs(inputs, outputs, trades).contains_key(k),
        resolve_pairs(inputs, outputs, trades)[k].is_some(),
    ensures
        resolve_pairs(inputs, outputs, trades).contains_key(swapped(k)),
        resolve_pairs(inputs, outputs, trades)[swapped(k)].is_some(),
        resolve_pairs(inputs, outputs, trades)[k]->Some_0.negative == resolve_pairs(
            inputs,
            outputs,
            trades,
        )[swapped(k)]->Some_0.negative,
        mul18_spec(
            resolve_pairs(inputs, outputs, trades)[k]->Some_0.magnitude,
            resolve_pairs(inputs, outputs, trades)[swapped(k)]->Some_0.magnitude,
        ) is Ok,
        mul18_spec(
            resolve_pairs(inputs, outputs, trades)[k]->Some_0.magnitude,
            resolve_pairs(inputs, outputs, trades)[swapped(k)]->Some_0.magnitude,
        )->Ok_0 <= one18(),
{
    let m = resolve_pairs(inputs, outputs, trades);
    lemma_resolved_pairs_symmetric(inputs, outputs, trades);
    assert(m.contains_key(k));
    let found = pair_ratios(trades, k.input, k.output);
    assert(mutual_ratios(m[k], m[swapped(k)], found));
    let t = first_trade_between(trades, k.input, k.output)->Some_0;
    lemma_ratio_times_inverse_at_most_one(t);
    let r = ratio_spec(t)->Ok_0.magnitude;
    let v = inverse_ratio_spec(t)->Ok_0.magnitude;
    assert(r * v == v * r) by (nonlinear_arith);
}

/// The map of a list without repetition has as many pairs as the list has
/// entries.
pub proof fn lemma_entries_map_len(s: Seq<PairRatio>)
    requires
        distinct_pairs(s),
    ensures
        entries_map(s).dom().finite(),
        entries_map(s).dom().len() == s.len(),
    decreases s.len(),
{
    if s.len() > 0 {
        let front = s.drop_last();
        assert(distinct_pairs(front)) by {
            assert forall|i: int, j: int| 0 <= i < j < front.len() implies front[i].pair@
                != front[j].pair@ by {
                assert(s[i].pair@ != s[j].pair@);
            }
        }
        lemma_entries_map_len(front);
        lemma_entries_map(front);
        let k = s.last().pair@;
        if entries_map(front).contains_key(k) {
            let i = choose|i: int| 0 <= i < front.len() && #[trigger] front[i].pair@ == k;
            assert(s[i].pair@ != s[s.len() - 1].pair@);
        }
        assert(entries_map(s).dom() =~= entries_map(front).dom().insert(k));
    }
}

/// Whether every trade has a time and no trade is later than one before it
/// in the list, as the search for the latest trade of a pair expects.
pub fn is_sorted_by_falling_time(trades: &[SgTrade]) -> (r: bool)
    ensures
        r == sorted_by_falling_time(trade_views(trades@)),
{
    let ghost views = trade_views(trades@);
    let mut previous: u64 = u64::MAX;
    let mut i: usize = 0;
    while i < trades.len()
        invariant
            i <= trades@.len(),
            views == trade_views(trades@),
            forall|a: int| 0 <= a < i ==> trade_time(#[trigger] views[a]).is_some(),
            forall|a: int, b: int|
                0 <= a < b < i ==> trade_time(#[trigger] views[a])->Some_0 >= trade_time(
                    #[trigger] views[b],
                )->Some_0,
            i > 0 ==> previous == trade_time(views[i - 1])->Some_0,
        decreases trades.len() - i,
    {
        let time = match parse_u64(trades[i].timestamp.0.as_str()) {
            Ok(t) => t,
            Err(_) => {
                proof {
                    assert(trade_time(views[i as int]).is_none());
                }
                return false;
            },
        };
        if i > 0 && time > previous {
            proof {
                assert(trade_time(views[i - 1])->Some_0 < trade_time(views[i as int])->Some_0);
            }
            return false;
        }
        proof {
            assert forall|a: int, b: int| 0 <= a < b < i + 1 implies trade_time(
                #[trigger] views[a],
            )->Some_0 >= trade_time(#[trigger] views[b])->Some_0 by {
                if b == i && a < i - 1 {
                    assert(trade_time(views[a])->Some_0 >= trade_time(views[i - 1])->Some_0);
                }
            }
        }
        previous = time;
        i = i + 1;
    }
    true
}

} // verus!
