use alloy::primitives::{Address, B256};
use order_performance::error::PerformanceError;
use order_performance::fixed::Fixed18;
use order_performance::performance::{
    APYDetails, DenominatedPerformance, VaultPerformance, VolumeDetails,
};
use order_performance::ratio::{get_order_pairs_ratio, PairRatioMap};
use order_performance::signed::SignedAmount;
use order_performance::report::OrderPerformance;
use order_performance::types::{
    SgBigInt, SgBytes, SgErc20, SgOrder, SgOrderbook, SgTrade, SgTradeVaultBalanceChange, SgVault,
    SgVaultBalanceChangeVault, TokenPair,
};

fn fixed(text: &str) -> Fixed18 {
    Fixed18::parse(text).unwrap()
}

fn get_vault_ids() -> [B256; 2] {
    [
        B256::from_slice(&[0x11u8; 32]),
        B256::from_slice(&[0x22u8; 32]),
    ]
}

fn get_tokens() -> [SgErc20; 2] {
    let token1_address = Address::from_slice(&[0x11u8; 20]);
    let token2_address = Address::from_slice(&[0x22u8; 20]);
    let token1 = SgErc20 {
        id: SgBytes(token1_address.to_string()),
        address: SgBytes(token1_address.to_string()),
        name: Some("Token1".to_string()),
        symbol: Some("Token1".to_string()),
        decimals: Some(SgBigInt(18.to_string())),
    };
    let token2 = SgErc20 {
        id: SgBytes(token2_address.to_string()),
        address: SgBytes(token2_address.to_string()),
        name: Some("Token2".to_string()),
        symbol: Some("Token2".to_string()),
        decimals: Some(SgBigInt(18.to_string())),
    };
    [token1, token2]
}

fn vault(vault_id: &B256, token: SgErc20) -> SgVault {
    SgVault {
        id: SgBytes("".to_string()),
        owner: SgBytes("".to_string()),
        vault_id: SgBytes(vault_id.to_string()),
        balance: SgBytes("".to_string()),
        token,
        orderbook: SgOrderbook {
            id: SgBytes("".to_string()),
        },
    }
}

fn get_order() -> SgOrder {
    let [vault_id1, vault_id2] = get_vault_ids();
    let [token1, token2] = get_tokens();
    let vault1 = vault(&vault_id1, token1);
    let vault2 = vault(&vault_id2, token2);
    SgOrder {
        id: SgBytes("order-id".to_string()),
        order_bytes: SgBytes("".to_string()),
        order_hash: SgBytes("".to_string()),
        owner: SgBytes("".to_string()),
        outputs: vec![vault1.clone(), vault2.clone()],
        inputs: vec![vault1, vault2],
        orderbook: SgOrderbook {
            id: SgBytes("".to_string()),
        },
        active: true,
        timestamp_added: SgBigInt("".to_string()),
    }
}

fn change(
    amount: &str,
    new_vault_balance: &str,
    token: SgErc20,
    vault_id: &B256,
    timestamp: &str,
) -> SgTradeVaultBalanceChange {
    SgTradeVaultBalanceChange {
        id: SgBytes("".to_string()),
        amount: SgBytes(amount.to_string()),
        new_vault_balance: SgBytes(new_vault_balance.to_string()),
        old_vault_balance: SgBytes("".to_string()),
        vault: SgVaultBalanceChangeVault {
            id: SgBytes("".to_string()),
            token,
            vault_id: SgBytes(vault_id.to_string()),
        },
        timestamp: SgBigInt(timestamp.to_string()),
    }
}

fn get_trades() -> Vec<SgTrade> {
    let [vault_id1, vault_id2] = get_vault_ids();
    let [token1, token2] = get_tokens();
    let trade1 = SgTrade {
        id: SgBytes("".to_string()),
        timestamp: SgBigInt("1".to_string()),
        output_vault_balance_change: change(
            "-2000000000000000000",
            "2000000000000000000",
            token1.clone(),
            &vault_id1,
            "1",
        ),
        input_vault_balance_change: change(
            "5000000000000000000",
            "2000000000000000000",
            token2.clone(),
            &vault_id2,
            "1",
        ),
    };
    let trade2 = SgTrade {
        id: SgBytes("".to_string()),
        timestamp: SgBigInt("2".to_string()),
        output_vault_balance_change: change(
            "-2000000000000000000",
            "5000000000000000000",
            token2.clone(),
            &vault_id2,
            "2",
        ),
        input_vault_balance_change: change(
            "7000000000000000000",
            "5000000000000000000",
            token1.clone(),
            &vault_id1,
            "2",
        ),
    };
    vec![trade2, trade1]
}

fn get_vault_figures() -> [VaultPerformance; 2] {
    let [token1, token2] = get_tokens();
    let [vault1, vault2] = get_vault_ids();
    let token1_perf = VaultPerformance {
        id: vault1.to_string(),
        token: token1,
        apy_details: Some(APYDetails {
            start_time: 1,
            end_time: 10000001,
            net_vol: fixed("5000000000000000000"),
            capital: fixed("5000000000000000000"),
            apy: fixed("3153600000000000000"),
            is_neg: false,
        }),
        vol_details: VolumeDetails {
            net_vol: fixed("5000000000000000000"),
            is_neg: false,
            total_in: fixed("7000000000000000000"),
            total_out: fixed("2000000000000000000"),
            total_vol: fixed("9000000000000000000"),
        },
    };
    let token2_perf = VaultPerformance {
        id: vault2.to_string(),
        token: token2,
        apy_details: Some(APYDetails {
            start_time: 1,
            end_time: 10000001,
            net_vol: fixed("3000000000000000000"),
            capital: fixed("5000000000000000000"),
            apy: fixed("1892160000000000000"),
            is_neg: false,
        }),
        vol_details: VolumeDetails {
            net_vol: fixed("3000000000000000000"),
            is_neg: false,
            total_in: fixed("5000000000000000000"),
            total_out: fixed("2000000000000000000"),
            total_vol: fixed("7000000000000000000"),
        },
    };
    [token1_perf, token2_perf]
}

#[test]
fn test_get_pairs_ratio() {
    let trades = get_trades();
    let [token1, token2] = get_tokens();
    let result = get_order_pairs_ratio(&get_order(), &trades);
    let mut expected = PairRatioMap::new();
    expected.insert(
        TokenPair {
            input: token2.clone(),
            output: token1.clone(),
        },
        Some(SignedAmount {
            magnitude: fixed("285714285714285714"),
            negative: true,
        }),
    );
    expected.insert(
        TokenPair {
            input: token1.clone(),
            output: token2.clone(),
        },
        Some(SignedAmount {
            magnitude: fixed("3500000000000000000"),
            negative: true,
        }),
    );

    assert!(result.same_as(&expected));
    assert_eq!(result.len(), 2);
    let backward = result
        .get(&TokenPair {
            input: token2.clone(),
            output: token1.clone(),
        })
        .unwrap();
    assert_eq!(
        backward.map(|r| r.magnitude),
        Some(fixed("285714285714285714"))
    );
    let forward = result
        .get(&TokenPair {
            input: token1.clone(),
            output: token2.clone(),
        })
        .unwrap();
    assert_eq!(
        forward.map(|r| r.magnitude),
        Some(fixed("3500000000000000000"))
    );
}

#[test]
fn test_get_order_performance() {
    let order = get_order();
    let trades = get_trades();
    let [_, token2] = get_tokens();
    let [token1_perf, token2_perf] = get_vault_figures();
    let vaults = vec![token1_perf.clone(), token2_perf.clone()];
    let result =
        OrderPerformance::measure(&order, &trades, &vaults, Some(1), Some(10000001)).unwrap();
    let expected = OrderPerformance {
        order_id: "order-id".to_string(),
        order_hash: "".to_string(),
        orderbook: "".to_string(),
        start_time: 1,
        end_time: 10000001,
        inputs_vaults: vec![token1_perf.clone(), token2_perf.clone()],
        outputs_vaults: vec![token1_perf.clone(), token2_perf.clone()],
        denominated_performance: Some(DenominatedPerformance {
            apy: fixed("2172479999999999999"),
            apy_is_neg: false,
            token: token2,
            net_vol: fixed("4428571428571428570"),
            starting_capital: fixed("6428571428571428570"),
            net_vol_is_neg: false,
        }),
    };

    assert_eq!(result, expected);
}

#[test]
fn measure_without_trades_is_empty() {
    let order = get_order();
    let vaults = get_vault_figures().to_vec();
    let result = OrderPerformance::measure(&order, &[], &vaults, Some(7), Some(9)).unwrap();
    let expected = OrderPerformance {
        order_id: "order-id".to_string(),
        order_hash: "".to_string(),
        orderbook: "".to_string(),
        start_time: 7,
        end_time: 9,
        inputs_vaults: vec![],
        outputs_vaults: vec![],
        denominated_performance: None,
    };
    assert_eq!(result, expected);
}

#[test]
fn measure_without_trades_defaults_the_window() {
    let order = get_order();
    let result = OrderPerformance::measure_at(&order, &[], &[], None, None, 1234).unwrap();
    assert_eq!(result.start_time, 0);
    assert_eq!(result.end_time, 1234);
    assert_eq!(result.denominated_performance, None);

    let before = chrono::Utc::now().timestamp() as u64;
    let result = OrderPerformance::measure(&order, &[], &[], None, None).unwrap();
    let after = chrono::Utc::now().timestamp() as u64;
    assert_eq!(result.start_time, 0);
    assert!(before <= result.end_time && result.end_time <= after);
}

#[test]
fn measure_is_the_same_on_every_run() {
    let order = get_order();
    let trades = get_trades();
    let vaults = get_vault_figures().to_vec();
    let first = OrderPerformance::measure(&order, &trades, &vaults, None, None).unwrap();
    let second = OrderPerformance::measure_at(&order, &trades, &vaults, Some(3), None, 77).unwrap();
    assert_eq!(first, second);
}

#[test]
fn measure_without_a_ratio_finds_no_denomination() {
    let order = get_order();
    // a trade between other tokens resolves no pair of the order
    let [token1, _] = get_tokens();
    let [vault_id1, _] = get_vault_ids();
    let trades = vec![SgTrade {
        id: SgBytes("".to_string()),
        timestamp: SgBigInt("1".to_string()),
        output_vault_balance_change: change("-1", "", token1.clone(), &vault_id1, "1"),
        input_vault_balance_change: change("1", "", token1, &vault_id1, "1"),
    }];
    let vaults = get_vault_figures().to_vec();
    let result = OrderPerformance::measure(&order, &trades, &vaults, None, None).unwrap();
    assert_eq!(result.denominated_performance, None);
    assert_eq!(result.start_time, 1);
    assert_eq!(result.end_time, 10000001);
    assert_eq!(result.inputs_vaults.len(), 2);

    let ratios = get_order_pairs_ratio(&order, &trades);
    assert_eq!(ratios.len(), 2);
    let [token1, token2] = get_tokens();
    assert_eq!(
        ratios.get(&TokenPair {
            input: token1.clone(),
            output: token2.clone()
        }),
        Some(None)
    );
    assert_eq!(
        ratios.get(&TokenPair {
            input: token1.clone(),
            output: token1
        }),
        None
    );
}

#[test]
fn measure_fails_on_a_degenerate_window() {
    let order = get_order();
    let trades = get_trades();
    let mut vaults = get_vault_figures().to_vec();
    let mut details = vaults[1].apy_details.unwrap();
    details.end_time = details.start_time;
    vaults[1].apy_details = Some(details);
    let result = OrderPerformance::measure(&order, &trades, &vaults, None, None);
    assert_eq!(result, Err(PerformanceError::DivByZero));
}

#[test]
fn measure_fails_on_overflow() {
    let order = get_order();
    let trades = get_trades();
    let mut vaults = get_vault_figures().to_vec();
    let mut details = vaults[0].apy_details.unwrap();
    details.capital = Fixed18 {
        l0: u64::MAX,
        l1: u64::MAX,
        l2: u64::MAX,
        l3: u64::MAX,
    };
    vaults[0].apy_details = Some(details);
    let result = OrderPerformance::measure(&order, &trades, &vaults, None, None);
    assert_eq!(result, Err(PerformanceError::Overflow));
}

#[test]
fn measure_classifies_vaults_by_identifier_and_token() {
    let mut order = get_order();
    // the order reads from vault 1 only and pays into vault 2 only
    order.inputs.truncate(1);
    order.outputs.remove(0);
    let trades = get_trades();
    let [token1_perf, token2_perf] = get_vault_figures();
    // a vault with the identifier of vault 1 but the token of vault 2 is on no leg
    let mut stranger = token2_perf.clone();
    stranger.id = token1_perf.id.clone();
    stranger.apy_details = None;
    let vaults = vec![token1_perf.clone(), stranger, token2_perf.clone()];
    let result = OrderPerformance::measure(&order, &trades, &vaults, None, None).unwrap();
    assert_eq!(result.inputs_vaults, vec![token1_perf]);
    assert_eq!(result.outputs_vaults, vec![token2_perf]);
}

#[test]
fn measure_skips_a_denomination_without_capital() {
    let order = get_order();
    let trades = get_trades();
    let mut vaults = get_vault_figures().to_vec();
    for v in vaults.iter_mut() {
        let mut details = v.apy_details.unwrap();
        details.capital = Fixed18::zero();
        v.apy_details = Some(details);
    }
    let result = OrderPerformance::measure(&order, &trades, &vaults, None, None).unwrap();
    assert_eq!(result.denominated_performance, None);
}

#[test]
fn measure_combines_opposite_signs() {
    let order = get_order();
    let trades = get_trades();
    let mut vaults = get_vault_figures().to_vec();
    let mut details = vaults[1].apy_details.unwrap();
    details.is_neg = true;
    vaults[1].apy_details = Some(details);
    let result = OrderPerformance::measure(&order, &trades, &vaults, None, None).unwrap();
    // ranked in token 1: +5 for token 1 and -10.5 for token 2, so token 1 leads
    let chosen = result.denominated_performance.unwrap();
    let [token1, _] = get_tokens();
    assert_eq!(chosen.token, token1);
    // capital 5 + 5 * 3.5, net volume 5 - 3 * 3.5
    assert_eq!(chosen.starting_capital, fixed("22500000000000000000"));
    assert_eq!(chosen.net_vol, fixed("5500000000000000000"));
    assert!(chosen.net_vol_is_neg);
    assert!(chosen.apy_is_neg);
}

#[test]
fn trades_are_sorted_by_falling_time() {
    let trades = get_trades();
    assert!(order_performance::ratio::is_sorted_by_falling_time(&trades));
    let mut rising = get_trades();
    rising.reverse();
    assert!(!order_performance::ratio::is_sorted_by_falling_time(&rising));
    let mut same = get_trades();
    same[1].timestamp = SgBigInt("2".to_string());
    assert!(order_performance::ratio::is_sorted_by_falling_time(&same));
    let mut malformed = get_trades();
    malformed[0].timestamp = SgBigInt("".to_string());
    assert!(!order_performance::ratio::is_sorted_by_falling_time(&malformed));
    assert!(order_performance::ratio::is_sorted_by_falling_time(&[]));
    assert!(order_performance::ratio::is_sorted_by_falling_time(&trades[..1]));
}

#[test]
fn the_latest_trade_of_a_pair_decides_its_ratio() {
    let order = get_order();
    let [vault_id1, vault_id2] = get_vault_ids();
    let [token1, token2] = get_tokens();
    let older = SgTrade {
        id: SgBytes("".to_string()),
        timestamp: SgBigInt("1".to_string()),
        output_vault_balance_change: change("-4", "", token1.clone(), &vault_id1, "1"),
        input_vault_balance_change: change("1", "", token2.clone(), &vault_id2, "1"),
    };
    let newer = SgTrade {
        id: SgBytes("".to_string()),
        timestamp: SgBigInt("2".to_string()),
        output_vault_balance_change: change("-8", "", token1.clone(), &vault_id1, "2"),
        input_vault_balance_change: change("1", "", token2.clone(), &vault_id2, "2"),
    };
    let ratios = get_order_pairs_ratio(&order, &[newer, older]);
    // the order meets token 1 as input first, so that pair takes the trade's
    // own ratio though the trade ran the other way
    let forward = ratios
        .get(&TokenPair {
            input: token1.clone(),
            output: token2.clone(),
        })
        .unwrap()
        .unwrap();
    assert_eq!(forward.magnitude, fixed("125000000000000000"));
    assert!(forward.negative);
    let backward = ratios
        .get(&TokenPair {
            input: token2,
            output: token1,
        })
        .unwrap()
        .unwrap();
    assert_eq!(backward.magnitude, fixed("8000000000000000000"));
}

#[test]
fn a_pair_whose_trade_gives_no_ratio_is_unresolved() {
    let order = get_order();
    let [vault_id1, vault_id2] = get_vault_ids();
    let [token1, token2] = get_tokens();
    let zero = SgTrade {
        id: SgBytes("".to_string()),
        timestamp: SgBigInt("2".to_string()),
        output_vault_balance_change: change("0", "", token1.clone(), &vault_id1, "2"),
        input_vault_balance_change: change("1", "", token2.clone(), &vault_id2, "2"),
    };
    // an older proper trade does not stand in for the latest
    let mut trades = vec![zero];
    trades.extend(get_trades());
    let ratios = get_order_pairs_ratio(&order, &trades);
    assert_eq!(ratios.len(), 2);
    assert_eq!(
        ratios.get(&TokenPair {
            input: token1.clone(),
            output: token2.clone()
        }),
        Some(None)
    );
    assert_eq!(
        ratios.get(&TokenPair {
            input: token2,
            output: token1
        }),
        Some(None)
    );
}
