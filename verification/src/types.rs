//! Orders, vaults, tokens and trades as the subgraph reports them.

use vstd::prelude::*;
use crate::error::PerformanceError;
use crate::parse::{parse_u8, u8_literal};
use crate::fixed::{div18_spec, mul18_spec, one18};
use crate::signed::{signed_div_spec, signed_literal, signed_result, SignedAmount, SignedRaw};

verus! {

/// A hex string.
#[derive(Debug, PartialEq, Eq, Hash)]
pub struct SgBytes(pub String);

/// An integer in a string.
#[derive(Debug, PartialEq, Eq, Hash)]
pub struct SgBigInt(pub String);

impl View for SgBytes {
    type V = Seq<char>;

    open spec fn view(&self) -> Seq<char> {
        self.0@
    }
}

impl View for SgBigInt {
    type V = Seq<char>;

    open spec fn view(&self) -> Seq<char> {
        self.0@
    }
}

impl Clone for SgBytes {
    fn clone(&self) -> (r: Self)
        ensures
            r@ == self@,
    {
        SgBytes(self.0.clone())
    }
}

impl Clone for SgBigInt {
    fn clone(&self) -> (r: Self)
        ensures
            r@ == self@,
    {
        SgBigInt(self.0.clone())
    }
}

/// The view of an optional string.
pub open spec fn optional_text(s: Option<String>) -> Option<Seq<char>> {
    match s {
        Some(t) => Some(t@),
        None => None,
    }
}

/// Whether two optional strings hold the same text.
pub fn same_optional_text(a: &Option<String>, b: &Option<String>) -> (r: bool)
    ensures
        r == (optional_text(*a) == optional_text(*b)),
{
    match (a, b) {
        (Some(x), Some(y)) => *x == *y,
        (None, None) => true,
        _ => false,
    }
}

/// A copy of an optional string.
pub fn copy_optional_text(a: &Option<String>) -> (r: Option<String>)
    ensures
        optional_text(r) == optional_text(*a),
{
    match a {
        Some(x) => Some(x.clone()),
        None => None,
    }
}

/// The identity of a token: every field of its record.
pub ghost struct TokenView {
    pub id: Seq<char>,
    pub address: Seq<char>,
    pub name: Option<Seq<char>>,
    pub symbol: Option<Seq<char>>,
    pub decimals: Option<Seq<char>>,
}

/// An ERC20 token.
#[derive(Debug, PartialEq, Eq, Hash)]
pub struct SgErc20 {
    pub id: SgBytes,
    pub address: SgBytes,
    pub name: Option<String>,
    pub symbol: Option<String>,
    pub decimals: Option<SgBigInt>,
}

impl View for SgErc20 {
    type V = TokenView;

    open spec fn view(&self) -> TokenView {
        TokenView {
            id: self.id@,
            address: self.address@,
            name: optional_text(self.name),
            symbol: optional_text(self.symbol),
            decimals: match self.decimals {
                Some(d) => Some(d@),
                None => None,
            },
        }
    }
}

impl Clone for SgErc20 {
    fn clone(&self) -> (r: Self)
        ensures
            r@ == self@,
    {
        SgErc20 {
            id: self.id.clone(),
            address: self.address.clone(),
            name: copy_optional_text(&self.name),
            symbol: copy_optional_text(&self.symbol),
            decimals: match &self.decimals {
                Some(d) => Some(d.clone()),
                None => None,
            },
        }
    }
}

/// The number of decimals that a token's record gives: the literal held in
/// `decimals`, or 18 where the record holds none.
pub open spec fn decimals_spec(t: TokenView) -> Result<nat, PerformanceError> {
    match t.decimals {
        None => Ok(18),
        Some(text) => match u8_literal(text) {
            Ok(v) => Ok(v),
            Err(k) => Err(PerformanceError::ParseIntError(k)),
        },
    }
}

impl SgErc20 {
    /// Whether `self` and `other` are the same token, field by field.
    pub fn same_token(&self, other: &SgErc20) -> (r: bool)
        ensures
            r == (self@ == other@),
    {
        let same_decimals = match (&self.decimals, &other.decimals) {
            (Some(x), Some(y)) => x.0 == y.0,
            (None, None) => true,
            _ => false,
        };
        self.id.0 == other.id.0 && self.address.0 == other.address.0 && same_optional_text(
            &self.name,
            &other.name,
        ) && same_optional_text(&self.symbol, &other.symbol) && same_decimals
    }

    /// The token's decimals, 18 where the record gives none.
    pub fn get_decimals(&self) -> (r: Result<u8, PerformanceError>)
        ensures
            match r {
                Ok(v) => decimals_spec(self@) == Ok::<nat, PerformanceError>(v as nat),
                Err(e) => decimals_spec(self@) == Err::<nat, PerformanceError>(e),
            },
    {
        match &self.decimals {
            None => Ok(18),
            Some(d) => match parse_u8(d.0.as_str()) {
                Ok(v) => Ok(v),
                Err(k) => Err(PerformanceError::ParseIntError(k)),
            },
        }
    }
}

/// An orderbook contract.
#[derive(Debug, Clone, PartialEq, Eq, Hash)]
pub struct SgOrderbook {
    pub id: SgBytes,
}

/// A leg of an order: the vault it draws on and the vault's token.
pub ghost struct VaultLeg {
    pub vault_id: Seq<char>,
    pub token: TokenView,
}

/// A vault that an order reads from or pays into.
#[derive(Debug, Clone, PartialEq, Eq, Hash)]
pub struct SgVault {
    pub id: SgBytes,
    pub owner: SgBytes,
    pub vault_id: SgBytes,
    pub balance: SgBytes,
    pub token: SgErc20,
    pub orderbook: SgOrderbook,
}

impl View for SgVault {
    type V = VaultLeg;

    open spec fn view(&self) -> VaultLeg {
        VaultLeg { vault_id: self.vault_id@, token: self.token@ }
    }
}

/// The legs that a list of vaults stands for.
pub open spec fn legs(vaults: Seq<SgVault>) -> Seq<VaultLeg> {
    vaults.map_values(|v: SgVault| v@)
}

/// An order with its declared input and output vaults.
#[derive(Debug, Clone, PartialEq, Eq, Hash)]
pub struct SgOrder {
    pub id: SgBytes,
    pub order_bytes: SgBytes,
    pub order_hash: SgBytes,
    pub owner: SgBytes,
    pub outputs: Vec<SgVault>,
    pub inputs: Vec<SgVault>,
    pub orderbook: SgOrderbook,
    pub active: bool,
    pub timestamp_added: SgBigInt,
}

/// What the performance logic reads of an order: its identifiers and the
/// legs it declares.
pub ghost struct OrderView {
    pub id: Seq<char>,
    pub order_hash: Seq<char>,
    pub orderbook: Seq<char>,
    pub inputs: Seq<VaultLeg>,
    pub outputs: Seq<VaultLeg>,
}

impl View for SgOrder {
    type V = OrderView;

    open spec fn view(&self) -> OrderView {
        OrderView {
            id: self.id@,
            order_hash: self.order_hash@,
            orderbook: self.orderbook.id@,
            inputs: legs(self.inputs@),
            outputs: legs(self.outputs@),
        }
    }
}

/// The tokens of a list of legs.
pub open spec fn leg_tokens(s: Seq<VaultLeg>) -> Seq<TokenView> {
    s.map_values(|l: VaultLeg| l.token)
}

/// The vault that a balance change of a trade touched.
#[derive(Debug, Clone, PartialEq, Eq, Hash)]
pub struct SgVaultBalanceChangeVault {
    pub id: SgBytes,
    pub vault_id: SgBytes,
    pub token: SgErc20,
}

/// One side of a trade: the signed amount by which a vault's balance moved.
#[derive(Debug, Clone, PartialEq, Eq, Hash)]
pub struct SgTradeVaultBalanceChange {
    pub id: SgBytes,
    pub amount: SgBytes,
    pub new_vault_balance: SgBytes,
    pub old_vault_balance: SgBytes,
    pub vault: SgVaultBalanceChangeVault,
    pub timestamp: SgBigInt,
}

/// What the performance logic reads of a trade: the time, the two tokens and
/// the two amount literals.
pub ghost struct TradeView {
    pub timestamp: Seq<char>,
    pub input_token: TokenView,
    pub output_token: TokenView,
    pub input_amount: Seq<char>,
    pub output_amount: Seq<char>,
}

/// One atomic exchange between an input vault and an output vault.
#[derive(Debug, Clone, PartialEq, Eq, Hash)]
pub struct SgTrade {
    pub id: SgBytes,
    pub timestamp: SgBigInt,
    pub input_vault_balance_change: SgTradeVaultBalanceChange,
    pub output_vault_balance_change: SgTradeVaultBalanceChange,
}

impl View for SgTrade {
    type V = TradeView;

    open spec fn view(&self) -> TradeView {
        TradeView {
            timestamp: self.timestamp@,
            input_token: self.input_vault_balance_change.vault.token@,
            output_token: self.output_vault_balance_change.vault.token@,
            input_amount: self.input_vault_balance_change.amount@,
            output_amount: self.output_vault_balance_change.amount@,
        }
    }
}

/// The views of a list of trades.
pub open spec fn trade_views(trades: Seq<SgTrade>) -> Seq<TradeView> {
    trades.map_values(|t: SgTrade| t@)
}

/// The two amounts of a trade, input first, where both literals are well
/// formed; else the failure of the first that is not.
pub open spec fn trade_amounts(t: TradeView) -> Result<(SignedRaw, SignedRaw), PerformanceError> {
    match signed_literal(t.input_amount) {
        Err(e) => Err(e),
        Ok(input) => match signed_literal(t.output_amount) {
            Err(e) => Err(e),
            Ok(output) => Ok((input, output)),
        },
    }
}

/// The input amount over the output amount.
pub open spec fn ratio_spec(t: TradeView) -> Result<SignedRaw, PerformanceError> {
    match trade_amounts(t) {
        Err(e) => Err(e),
        Ok((input, output)) => signed_div_spec(input, output),
    }
}

/// The output amount over the input amount.
pub open spec fn inverse_ratio_spec(t: TradeView) -> Result<SignedRaw, PerformanceError> {
    match trade_amounts(t) {
        Err(e) => Err(e),
        Ok((input, output)) => signed_div_spec(output, input),
    }
}

impl SgTrade {
    /// Parses the two amounts of the trade, input first.
    fn amounts(&self) -> (r: Result<(SignedAmount, SignedAmount), PerformanceError>)
        ensures
            match r {
                Ok((i, o)) => trade_amounts(self@) == Ok::<
                    (SignedRaw, SignedRaw),
                    PerformanceError,
                >((i@, o@)),
                Err(e) => trade_amounts(self@) == Err::<(SignedRaw, SignedRaw), PerformanceError>(
                    e,
                ),
            },
    {
        match SignedAmount::parse(self.input_vault_balance_change.amount.0.as_str()) {
            Err(e) => Err(e),
            Ok(input) => match SignedAmount::parse(
                self.output_vault_balance_change.amount.0.as_str(),
            ) {
                Err(e) => Err(e),
                Ok(output) => Ok((input, output)),
            },
        }
    }

    /// The trade's input over output ratio. Fails with `DivByZero` where the
    /// output amount is zero of either sign.
    pub fn ratio(&self) -> (r: Result<SignedAmount, PerformanceError>)
        ensures
            signed_result(r) == ratio_spec(self@),
    {
        match self.amounts() {
            Err(e) => Err(e),
            Ok((input, output)) => input.div(output),
        }
    }

    /// The trade's output over input ratio. Fails with `DivByZero` where the
    /// input amount is zero of either sign.
    pub fn inverse_ratio(&self) -> (r: Result<SignedAmount, PerformanceError>)
        ensures
            signed_result(r) == inverse_ratio_spec(self@),
    {
        match self.amounts() {
            Err(e) => Err(e),
            Ok((input, output)) => output.div(input),
        }
    }
}

/// A trade with well-formed amounts has no ratio for want of a divisor
/// exactly when its output amount is zero, and no inverse ratio for want of a
/// divisor exactly when its input amount is zero, whatever the sign of the
/// zero.
pub proof fn lemma_zero_divisor(t: TradeView)
    requires
        trade_amounts(t) is Ok,
    ensures
        ratio_spec(t) == Err::<SignedRaw, PerformanceError>(PerformanceError::DivByZero)
            <==> trade_amounts(t)->Ok_0.1.magnitude == 0,
        inverse_ratio_spec(t) == Err::<SignedRaw, PerformanceError>(PerformanceError::DivByZero)
            <==> trade_amounts(t)->Ok_0.0.magnitude == 0,
{
}

/// Truncated division never rounds up: `(x / d) * d <= x`.
proof fn lemma_quotient_times_divisor(x: nat, d: nat)
    requires
        d > 0,
    ensures
        (x / d) * d <= x,
        (x % d == 0) ==> (x / d) * d == x,
{
    vstd::arithmetic::div_mod::lemma_fundamental_div_mod(x as int, d as int);
    assert((x / d) * d == d * (x / d)) by (nonlinear_arith);
}

/// The product of a trade's ratio and inverse ratio never exceeds one, and the
/// two have the same sign.
pub proof fn lemma_ratio_times_inverse_at_most_one(t: TradeView)
    requires
        ratio_spec(t) is Ok,
        inverse_ratio_spec(t) is Ok,
    ensures
        ratio_spec(t)->Ok_0.negative == inverse_ratio_spec(t)->Ok_0.negative,
        ratio_spec(t)->Ok_0.magnitude * inverse_ratio_spec(t)->Ok_0.magnitude <= one18()
            * one18(),
        mul18_spec(ratio_spec(t)->Ok_0.magnitude, inverse_ratio_spec(t)->Ok_0.magnitude)
            is Ok,
        mul18_spec(
            ratio_spec(t)->Ok_0.magnitude,
            inverse_ratio_spec(t)->Ok_0.magnitude,
        )->Ok_0 <= one18(),
{
    let a = trade_amounts(t)->Ok_0.0.magnitude;
    let b = trade_amounts(t)->Ok_0.1.magnitude;
    let s = one18();
    let r = ratio_spec(t)->Ok_0.magnitude;
    let v = inverse_ratio_spec(t)->Ok_0.magnitude;
    assert(r == (a * s) / b);
    assert(v == (b * s) / a);
    lemma_quotient_times_divisor(a * s, b);
    lemma_quotient_times_divisor(b * s, a);
    assert(r * v <= s * s) by (nonlinear_arith)
        requires
            r * b <= a * s,
            v * a <= b * s,
            a > 0,
            b > 0,
    {
        assert((r * b) * (v * a) <= (a * s) * (b * s));
        assert((r * v) * (a * b) == (r * b) * (v * a));
        assert((s * s) * (a * b) == (a * s) * (b * s));
        assert(a * b > 0);
        if r * v > s * s {
            assert((r * v) * (a * b) > (s * s) * (a * b));
        }
    }
    assert((r * v) / s <= s) by (nonlinear_arith)
        requires
            r * v <= s * s,
            s > 0,
    {
        vstd::arithmetic::div_mod::lemma_div_is_ordered((r * v) as int, (s * s) as int, s as int);
        vstd::arithmetic::div_mod::lemma_div_multiples_vanish(s as int, s as int);
    }
}

/// Truncation keeps the product of a trade's ratio and inverse ratio close to
/// one: as raw integers the product falls short of `10^18 * 10^18` by at most
/// the sum of the two.
pub proof fn lemma_ratio_times_inverse_near_one(t: TradeView)
    requires
        ratio_spec(t) is Ok,
        inverse_ratio_spec(t) is Ok,
    ensures
        one18() * one18() - ratio_spec(t)->Ok_0.magnitude * inverse_ratio_spec(t)->Ok_0.magnitude
            <= ratio_spec(t)->Ok_0.magnitude + inverse_ratio_spec(t)->Ok_0.magnitude,
{
    let a = trade_amounts(t)->Ok_0.0.magnitude as int;
    let b = trade_amounts(t)->Ok_0.1.magnitude as int;
    let s = one18() as int;
    let r = ratio_spec(t)->Ok_0.magnitude as int;
    let v = inverse_ratio_spec(t)->Ok_0.magnitude as int;
    assert(r == (a * s) / b);
    assert(v == (b * s) / a);
    let e1 = (a * s) % b;
    let e2 = (b * s) % a;
    vstd::arithmetic::div_mod::lemma_fundamental_div_mod(a * s, b);
    vstd::arithmetic::div_mod::lemma_fundamental_div_mod(b * s, a);
    assert(a * s == r * b + e1 && 0 <= e1 < b) by (nonlinear_arith)
        requires
            a * s == b * r + e1,
            0 <= e1 < b,
    ;
    assert(b * s == v * a + e2 && 0 <= e2 < a) by (nonlinear_arith)
        requires
            b * s == a * v + e2,
            0 <= e2 < a,
    ;
    let rb = r * b;
    let va = v * a;
    let ab = a * b;
    let q = r * v;
    let ss = s * s;
    assert((a * s) * (b * s) == rb * va + rb * e2 + e1 * va + e1 * e2) by (nonlinear_arith)
        requires
            a * s == rb + e1,
            b * s == va + e2,
    ;
    assert(rb * va == q * ab) by (nonlinear_arith)
        requires
            rb == r * b,
            va == v * a,
            ab == a * b,
            q == r * v,
    ;
    assert((a * s) * (b * s) == ss * ab) by (nonlinear_arith)
        requires
            ab == a * b,
            ss == s * s,
    ;
    assert(rb * e2 <= r * ab) by (nonlinear_arith)
        requires
            rb == r * b,
            ab == a * b,
            0 <= e2 < a,
            r >= 0,
            b > 0,
    ;
    assert(e1 * va <= v * ab) by (nonlinear_arith)
        requires
            va == v * a,
            ab == a * b,
            0 <= e1 < b,
            v >= 0,
            a > 0,
    ;
    assert(e1 * e2 < ab) by (nonlinear_arith)
        requires
            ab == a * b,
            0 <= e1 < b,
            0 <= e2 < a,
    ;
    assert(ss * ab < q * ab + r * ab + v * ab + ab);
    assert(q * ab + r * ab + v * ab + ab == (q + r + v + 1) * ab) by (nonlinear_arith);
    if ss >= q + r + v + 1 {
        assert(ab > 0) by (nonlinear_arith)
            requires
                ab == a * b,
                a > 0,
                b > 0,
        ;
        vstd::arithmetic::mul::lemma_mul_inequality(q + r + v + 1, ss, ab);
    }
}

/// Where both divisions of a trade's amounts are exact, its ratio times its
/// inverse ratio is exactly one, and the inverse ratio is one over the ratio.
pub proof fn lemma_exact_ratio_inverse(t: TradeView)
    requires
        ratio_spec(t) is Ok,
        inverse_ratio_spec(t) is Ok,
        (trade_amounts(t)->Ok_0.0.magnitude * one18()) % trade_amounts(t)->Ok_0.1.magnitude == 0,
        (trade_amounts(t)->Ok_0.1.magnitude * one18()) % trade_amounts(t)->Ok_0.0.magnitude == 0,
    ensures
        mul18_spec(ratio_spec(t)->Ok_0.magnitude, inverse_ratio_spec(t)->Ok_0.magnitude) == Ok::<
            nat,
            PerformanceError,
        >(one18()),
        div18_spec(one18(), ratio_spec(t)->Ok_0.magnitude) == Ok::<nat, PerformanceError>(
            inverse_ratio_spec(t)->Ok_0.magnitude,
        ),
{
    let a = trade_amounts(t)->Ok_0.0.magnitude;
    let b = trade_amounts(t)->Ok_0.1.magnitude;
    let s = one18();
    let r = ratio_spec(t)->Ok_0.magnitude;
    let v = inverse_ratio_spec(t)->Ok_0.magnitude;
    assert(r == (a * s) / b);
    assert(v == (b * s) / a);
    lemma_quotient_times_divisor(a * s, b);
    lemma_quotient_times_divisor(b * s, a);
    assert(r * v == s * s && r > 0) by (nonlinear_arith)
        requires
            r * b == a * s,
            v * a == b * s,
            a > 0,
            b > 0,
            s > 0,
    {
        assert((r * v) * (a * b) == (r * b) * (v * a));
        assert((s * s) * (a * b) == (a * s) * (b * s));
        assert(a * b > 0);
        if r * v > s * s {
            assert((r * v) * (a * b) > (s * s) * (a * b));
        }
        if r * v < s * s {
            assert((r * v) * (a * b) < (s * s) * (a * b));
        }
    }
    vstd::arithmetic::div_mod::lemma_div_multiples_vanish(s as int, s as int);
    assert((s * s) / s == s);
    assert((r * v) / s == s);
    vstd::arithmetic::div_mod::lemma_div_multiples_vanish(v as int, r as int);
    assert(r * v == v * r) by (nonlinear_arith);
    assert((s * s) / r == v);
}

/// An ordered pair of token identities.
pub ghost struct PairView {
    pub input: TokenView,
    pub output: TokenView,
}

/// An ordered pair of tokens, the key of a ratio.
#[derive(Debug, Clone, PartialEq, Eq, Hash)]
pub struct TokenPair {
    pub input: SgErc20,
    pub output: SgErc20,
}

impl View for TokenPair {
    type V = PairView;

    open spec fn view(&self) -> PairView {
        PairView { input: self.input@, output: self.output@ }
    }
}

impl TokenPair {
    /// Whether `self` and `other` name the same tokens in the same order.
    pub fn same_pair(&self, other: &TokenPair) -> (r: bool)
        ensures
            r == (self@ == other@),
    {
        self.input.same_token(&other.input) && self.output.same_token(&other.output)
    }
}

} // verus!
