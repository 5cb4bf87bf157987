use order_performance::fixed::Fixed18;
use order_performance::performance::{
    APYDetails, DenominatedPerformance, Totals, VaultPerformance, VolumeDetails,
};
use order_performance::ranking::{Standing, TokenDenominationVol};
use order_performance::ratio::PairRatioMap;
use order_performance::report::{
    candidate_of, denominate, is_on_some_leg, time_window, token_seen_before, vaults_of_legs,
};
use order_performance::selection::{find_candidate, rank_order, select_denomination};
use order_performance::signed::SignedAmount;
use order_performance::types::{SgBigInt, SgBytes, SgErc20, SgOrderbook, SgVault, TokenPair};

fn token(name: &str) -> SgErc20 {
    SgErc20 {
        id: SgBytes(name.to_string()),
        address: SgBytes(name.to_string()),
        name: Some(name.to_string()),
        symbol: Some(name.to_string()),
        decimals: Some(SgBigInt("18".to_string())),
    }
}

fn entry(name: &str, net_vol: u64, is_neg: bool) -> TokenDenominationVol {
    TokenDenominationVol {
        token: token(name),
        net_vol: Fixed18::from_u64(net_vol),
        is_neg,
    }
}

fn candidate(name: &str, apy: u64) -> DenominatedPerformance {
    DenominatedPerformance {
        token: token(name),
        apy: Fixed18::from_u64(apy),
        apy_is_neg: false,
        net_vol: Fixed18::from_u64(1),
        net_vol_is_neg: false,
        starting_capital: Fixed18::from_u64(1),
    }
}

fn units(n: u64) -> Fixed18 {
    Fixed18::from_u64(n).mul18(Fixed18::one()).unwrap().mul_div(
        Fixed18::one(),
        Fixed18::from_u64(1),
    ).unwrap()
}

fn figures(id: &str, name: &str, capital: u64, net_vol: u64, is_neg: bool) -> VaultPerformance {
    VaultPerformance {
        id: id.to_string(),
        token: token(name),
        vol_details: VolumeDetails {
            total_in: Fixed18::zero(),
            total_out: Fixed18::zero(),
            total_vol: Fixed18::zero(),
            net_vol: units(net_vol),
            is_neg,
        },
        apy_details: Some(APYDetails {
            start_time: 0,
            end_time: 31_536_000,
            net_vol: units(net_vol),
            capital: units(capital),
            apy: Fixed18::zero(),
            is_neg,
        }),
    }
}

fn ratio(text: &str) -> Option<SignedAmount> {
    Some(SignedAmount::parse(text).unwrap())
}

#[test]
fn compare_orders_as_signed_numbers() {
    let minus_nine = entry("a", 9, true);
    let minus_two = entry("b", 2, true);
    let minus_zero = entry("c", 0, true);
    let zero = entry("d", 0, false);
    let two = entry("e", 2, false);
    let nine = entry("f", 9, false);
    let rising = [&minus_nine, &minus_two, &minus_zero, &zero, &two, &nine];
    for (i, a) in rising.iter().enumerate() {
        for (j, b) in rising.iter().enumerate() {
            let expected = if i < j {
                Standing::Less
            } else if i == j {
                Standing::Equal
            } else {
                Standing::Greater
            };
            assert_eq!(a.compare(b), expected);
            assert_eq!(a.lt(b), i < j);
            assert_eq!(a.le(b), i <= j);
            assert_eq!(a.gt(b), i > j);
            assert_eq!(a.ge(b), i >= j);
        }
    }
    // the token plays no part
    assert_eq!(entry("x", 4, false).compare(&entry("y", 4, false)), Standing::Equal);
}

#[test]
fn min_and_max_prefer_the_receiver_on_a_tie() {
    assert_eq!(entry("a", 3, false).max(entry("b", 5, false)), entry("b", 5, false));
    assert_eq!(entry("a", 3, false).min(entry("b", 5, false)), entry("a", 3, false));
    assert_eq!(entry("a", 3, true).max(entry("b", 5, true)), entry("a", 3, true));
    assert_eq!(entry("a", 3, true).min(entry("b", 5, true)), entry("b", 5, true));
    assert_eq!(entry("a", 4, false).max(entry("b", 4, false)), entry("a", 4, false));
    assert_eq!(entry("a", 4, false).min(entry("b", 4, false)), entry("a", 4, false));
}

#[test]
fn rank_order_sorts_and_keeps_ties_in_place() {
    let list = vec![
        entry("a", 5, false),
        entry("b", 7, true),
        entry("c", 5, false),
        entry("d", 0, true),
        entry("e", 9, false),
        entry("f", 7, true),
        entry("g", 0, false),
    ];
    assert_eq!(rank_order(&list), vec![1, 5, 3, 6, 0, 2, 4]);
    assert_eq!(rank_order(&[]), Vec::<usize>::new());
    assert_eq!(rank_order(&list[..1]), vec![0]);
}

#[test]
fn rank_order_agrees_with_a_stable_sort() {
    let mut list = Vec::new();
    let mut seed: u64 = 7;
    for i in 0..40 {
        seed = seed.wrapping_mul(6364136223846793005).wrapping_add(1442695040888963407);
        list.push(entry(&format!("t{}", i), (seed >> 60) % 6, (seed >> 33) % 2 == 0));
    }
    let mut expected: Vec<usize> = (0..list.len()).collect();
    expected.sort_by_key(|&i| {
        let v = list[i].net_vol.l0 as i64;
        if list[i].is_neg {
            -v - 1
        } else {
            v
        }
    });
    assert_eq!(rank_order(&list), expected);
}

#[test]
fn selection_takes_the_highest_ranked_token_with_a_candidate() {
    let ranking = vec![
        entry("a", 5, false),
        entry("b", 9, false),
        entry("c", 7, true),
        entry("d", 6, false),
    ];
    let all = vec![candidate("a", 1), candidate("b", 2), candidate("c", 3), candidate("d", 4)];
    assert_eq!(select_denomination(&ranking, &all), Some(candidate("b", 2)));
    // without a candidate for the leader the next one is taken
    let some = vec![candidate("c", 3), candidate("a", 1), candidate("d", 4)];
    assert_eq!(select_denomination(&ranking, &some), Some(candidate("d", 4)));
    let low = vec![candidate("c", 3)];
    assert_eq!(select_denomination(&ranking, &low), Some(candidate("c", 3)));
    let strangers = vec![candidate("z", 3)];
    assert_eq!(select_denomination(&ranking, &strangers), None);
    assert_eq!(select_denomination(&ranking, &[]), None);
    assert_eq!(select_denomination(&[], &all), None);
}

#[test]
fn selection_breaks_a_tie_toward_the_later_entry() {
    let ranking = vec![entry("a", 5, false), entry("b", 5, false), entry("c", 1, false)];
    let all = vec![candidate("a", 1), candidate("b", 2), candidate("c", 3)];
    assert_eq!(select_denomination(&ranking, &all), Some(candidate("b", 2)));
    let one = vec![candidate("a", 1), candidate("c", 3)];
    assert_eq!(select_denomination(&ranking, &one), Some(candidate("a", 1)));
}

#[test]
fn selection_takes_the_first_candidate_of_a_token() {
    let ranking = vec![entry("a", 5, false)];
    let twice = vec![candidate("b", 0), candidate("a", 1), candidate("a", 2)];
    assert_eq!(find_candidate(&twice, &token("a")), Some(1));
    assert_eq!(find_candidate(&twice, &token("c")), None);
    assert_eq!(select_denomination(&ranking, &twice), Some(candidate("a", 1)));
}

#[test]
fn map_holds_one_entry_for_each_pair() {
    let pair = |a: &str, b: &str| TokenPair {
        input: token(a),
        output: token(b),
    };
    let mut map = PairRatioMap::new();
    assert_eq!(map.len(), 0);
    assert_eq!(map.get(&pair("a", "b")), None);
    assert!(!map.contains_key(&pair("a", "b")));

    map.insert(pair("a", "b"), ratio("2"));
    map.insert(pair("b", "a"), None);
    assert_eq!(map.len(), 2);
    assert_eq!(map.get(&pair("a", "b")), Some(ratio("2")));
    assert_eq!(map.get(&pair("b", "a")), Some(None));
    assert!(map.contains_key(&pair("b", "a")));
    assert!(!map.contains_key(&pair("a", "a")));

    // the order of entry plays no part in what a map holds
    let mut other = PairRatioMap::new();
    other.insert(pair("b", "a"), None);
    assert!(!map.same_as(&other));
    other.insert(pair("a", "b"), ratio("2"));
    assert!(map.same_as(&other) && other.same_as(&map));
    other.insert(pair("a", "b"), ratio("-2"));
    assert!(!map.same_as(&other));
    other.insert(pair("a", "b"), None);
    assert!(!map.same_as(&other));

    // a second entry for a pair takes the place of the first
    map.insert(pair("a", "b"), ratio("-3"));
    assert_eq!(map.len(), 2);
    assert_eq!(map.get(&pair("a", "b")), Some(ratio("-3")));
    assert_eq!(map.get(&pair("b", "a")), Some(None));
}

#[test]
fn totals_convert_other_tokens_by_the_ratio() {
    let mut ratios = PairRatioMap::new();
    ratios.insert(
        TokenPair {
            input: token("a"),
            output: token("b"),
        },
        ratio("-2000000000000000000"),
    );
    let vaults = vec![figures("1", "a", 10, 4, false), figures("2", "b", 3, 1, true)];
    let totals = Totals::accumulate(&token("a"), &vaults, &ratios).unwrap();
    assert!(totals.feasible);
    // capital 10 + 3 * 2, net volume 4 - 1 * 2; the ratio's sign plays no part
    assert_eq!(totals.capital, units(16));
    assert_eq!(
        totals.net_vol,
        SignedAmount {
            magnitude: units(2),
            negative: false
        }
    );
    assert_eq!(totals.rate_vol, totals.net_vol);
    assert_eq!(
        totals.contributions,
        vec![
            TokenDenominationVol {
                token: token("a"),
                net_vol: units(4),
                is_neg: false
            },
            TokenDenominationVol {
                token: token("b"),
                net_vol: units(2),
                is_neg: true
            },
        ]
    );
    let found = candidate_of(&token("a"), &totals).unwrap().unwrap();
    assert_eq!(found.token, token("a"));
    assert_eq!(found.starting_capital, units(16));
    assert_eq!(found.net_vol, units(2));
    assert_eq!(found.apy, Fixed18::from_u64(125_000_000_000_000_000));
    assert!(!found.apy_is_neg);
}

#[test]
fn totals_without_a_ratio_are_infeasible() {
    let ratios = PairRatioMap::new();
    let vaults = vec![
        figures("1", "a", 10, 4, false),
        figures("2", "b", 3, 1, true),
        figures("3", "a", 1, 1, false),
    ];
    let totals = Totals::accumulate(&token("a"), &vaults, &ratios).unwrap();
    assert!(!totals.feasible);
    // what was gathered before the gap stays as ranking
    assert_eq!(totals.contributions.len(), 1);
    assert_eq!(candidate_of(&token("a"), &totals), Ok(None));

    let mut unresolved = PairRatioMap::new();
    unresolved.insert(
        TokenPair {
            input: token("a"),
            output: token("b"),
        },
        None,
    );
    let totals = Totals::accumulate(&token("a"), &vaults, &unresolved).unwrap();
    assert!(!totals.feasible);
}

#[test]
fn denominate_works_through_each_token_once() {
    let mut ratios = PairRatioMap::new();
    ratios.insert(
        TokenPair {
            input: token("a"),
            output: token("b"),
        },
        ratio("2000000000000000000"),
    );
    let mut idle = figures("0", "c", 1, 1, false);
    idle.apy_details = None;
    let vaults = vec![
        idle,
        figures("1", "a", 10, 4, false),
        figures("2", "b", 3, 1, false),
        figures("3", "a", 1, 1, false),
    ];
    assert!(!token_seen_before(&vaults, 1));
    assert!(!token_seen_before(&vaults, 2));
    assert!(token_seen_before(&vaults, 3));
    let found = denominate(&vaults, &ratios).unwrap();
    assert!(found.started);
    // token a is feasible, token b has no ratio toward a
    assert_eq!(found.candidates.len(), 1);
    assert_eq!(found.candidates[0].token, token("a"));
    assert_eq!(found.candidates[0].starting_capital, units(17));
    assert_eq!(found.candidates[0].net_vol, units(7));
    assert_eq!(found.ranking.len(), 3);
    assert_eq!(found.ranking[1].net_vol, units(2));

    let none = denominate(&[], &ratios).unwrap();
    assert!(!none.started);
    assert!(none.candidates.is_empty() && none.ranking.is_empty());
}

#[test]
fn ranking_comes_from_the_first_token_even_where_it_is_infeasible() {
    let mut ratios = PairRatioMap::new();
    ratios.insert(
        TokenPair {
            input: token("b"),
            output: token("a"),
        },
        ratio("500000000000000000"),
    );
    let vaults = vec![figures("1", "a", 10, 4, false), figures("2", "b", 3, 1, false)];
    let found = denominate(&vaults, &ratios).unwrap();
    assert_eq!(found.candidates.len(), 1);
    assert_eq!(found.candidates[0].token, token("b"));
    // gathered under token a up to the vault it could not convert
    assert_eq!(
        found.ranking,
        vec![TokenDenominationVol {
            token: token("a"),
            net_vol: units(4),
            is_neg: false
        }]
    );
    assert_eq!(select_denomination(&found.ranking, &found.candidates), None);
}

#[test]
fn time_window_spans_the_vaults_with_figures() {
    let mut early = figures("1", "a", 1, 1, false);
    let mut late = figures("2", "b", 1, 1, false);
    let mut idle = figures("3", "c", 1, 1, false);
    early.apy_details = early.apy_details.map(|d| APYDetails {
        start_time: 5,
        end_time: 50,
        ..d
    });
    late.apy_details = late.apy_details.map(|d| APYDetails {
        start_time: 7,
        end_time: 90,
        ..d
    });
    idle.apy_details = None;
    assert_eq!(time_window(&[late.clone(), idle.clone(), early]), (5, 90));
    assert_eq!(time_window(&[idle]), (u64::MAX, 0));
    assert_eq!(time_window(&[]), (u64::MAX, 0));
    assert_eq!(time_window(&[late]), (7, 90));
}

#[test]
fn legs_match_by_identifier_and_token() {
    let leg = |id: &str, name: &str| SgVault {
        id: SgBytes("".to_string()),
        owner: SgBytes("".to_string()),
        vault_id: SgBytes(id.to_string()),
        balance: SgBytes("".to_string()),
        token: token(name),
        orderbook: SgOrderbook {
            id: SgBytes("".to_string()),
        },
    };
    let legs = vec![leg("1", "a"), leg("2", "b")];
    assert!(is_on_some_leg(&figures("1", "a", 1, 1, false), &legs));
    assert!(is_on_some_leg(&figures("2", "b", 1, 1, false), &legs));
    assert!(!is_on_some_leg(&figures("1", "b", 1, 1, false), &legs));
    assert!(!is_on_some_leg(&figures("3", "a", 1, 1, false), &legs));
    assert!(!is_on_some_leg(&figures("1", "a", 1, 1, false), &vec![]));
    let vaults = vec![
        figures("2", "b", 1, 1, false),
        figures("1", "b", 1, 1, false),
        figures("1", "a", 1, 1, false),
        figures("2", "b", 2, 2, true),
    ];
    assert_eq!(
        vaults_of_legs(&vaults, &legs),
        vec![vaults[0].clone(), vaults[2].clone(), vaults[3].clone()]
    );
}
