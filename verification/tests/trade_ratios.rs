use alloy::primitives::{Address, U256, U512};
use order_performance::error::{IntErrorKind, PerformanceError};
use order_performance::fixed::Fixed18;
use order_performance::signed::SignedAmount;
use order_performance::types::{
    SgBigInt, SgBytes, SgErc20, SgTrade, SgTradeVaultBalanceChange, SgVaultBalanceChangeVault,
};

fn token_with_decimals(decimals: Option<SgBigInt>) -> SgErc20 {
    SgErc20 {
        id: SgBytes(Address::from_slice(&[0x11u8; 20]).to_string()),
        address: SgBytes(Address::from_slice(&[0x11u8; 20]).to_string()),
        name: Some("Token1".to_string()),
        symbol: Some("Token1".to_string()),
        decimals,
    }
}

fn balance_change(amount: &str, token: SgErc20) -> SgTradeVaultBalanceChange {
    SgTradeVaultBalanceChange {
        id: SgBytes("".to_string()),
        amount: SgBytes(amount.to_string()),
        new_vault_balance: SgBytes("".to_string()),
        old_vault_balance: SgBytes("".to_string()),
        vault: SgVaultBalanceChangeVault {
            id: SgBytes("".to_string()),
            vault_id: SgBytes("".to_string()),
            token,
        },
        timestamp: SgBigInt("".to_string()),
    }
}

fn get_trade() -> SgTrade {
    let token = token_with_decimals(Some(SgBigInt(6.to_string())));
    SgTrade {
        id: SgBytes("".to_string()),
        timestamp: SgBigInt("".to_string()),
        input_vault_balance_change: balance_change("3000000", token.clone()),
        output_vault_balance_change: balance_change("-6000000", token),
    }
}

#[test]
fn test_token_get_decimals_ok() {
    // known decimals
    let token = token_with_decimals(Some(SgBigInt(6.to_string())));
    let result = token.get_decimals().unwrap();
    assert_eq!(result, 6);

    // unknown decimals, defaults to 18
    let token = token_with_decimals(None);
    let result = token.get_decimals().unwrap();
    assert_eq!(result, 18);
}

#[test]
fn test_token_get_decimals_err() {
    let token = token_with_decimals(Some(SgBigInt("".to_string())));
    let err = token.get_decimals().unwrap_err();
    assert!(matches!(err, PerformanceError::ParseIntError(_)));

    let token = token_with_decimals(Some(SgBigInt("not a number".to_string())));
    let err = token.get_decimals().unwrap_err();
    assert!(matches!(err, PerformanceError::ParseIntError(_)));

    let token = token_with_decimals(Some(SgBigInt("-1".to_string())));
    let err = token.get_decimals().unwrap_err();
    assert!(matches!(err, PerformanceError::ParseIntError(_)));
}

#[test]
fn test_ratio_happy() {
    let result = get_trade().ratio().unwrap();
    let expected = Fixed18::parse("500000000000000000").unwrap();
    assert!(result.magnitude.eq(&expected));
}

#[test]
fn test_ratio_unhappy() {
    let mut trade = get_trade();
    trade.output_vault_balance_change.amount = SgBytes("0".to_string());
    assert!(matches!(trade.ratio().unwrap_err(), PerformanceError::DivByZero));
}

#[test]
fn test_inverse_ratio_happy() {
    let result = get_trade().inverse_ratio().unwrap();
    let expected = Fixed18::parse("2000000000000000000").unwrap();
    assert!(result.magnitude.eq(&expected));
}

#[test]
fn test_inverse_ratio_unhappy() {
    let mut trade = get_trade();
    trade.input_vault_balance_change.amount = SgBytes("0".to_string());
    assert!(matches!(
        trade.inverse_ratio().unwrap_err(),
        PerformanceError::DivByZero
    ));
}

#[test]
fn decimals_literal_kinds() {
    let kind = |text: &str| match token_with_decimals(Some(SgBigInt(text.to_string())))
        .get_decimals()
    {
        Err(PerformanceError::ParseIntError(k)) => Some(k),
        _ => None,
    };
    assert_eq!(kind(""), Some(IntErrorKind::Empty));
    assert_eq!(kind("+"), Some(IntErrorKind::InvalidDigit));
    assert_eq!(kind("-1"), Some(IntErrorKind::InvalidDigit));
    assert_eq!(kind("1 "), Some(IntErrorKind::InvalidDigit));
    assert_eq!(kind("256"), Some(IntErrorKind::PosOverflow));
    assert_eq!(kind("9999"), Some(IntErrorKind::PosOverflow));
    assert_eq!(kind("25x"), Some(IntErrorKind::InvalidDigit));
    assert_eq!(kind("999x"), Some(IntErrorKind::PosOverflow));
    let value = |text: &str| {
        token_with_decimals(Some(SgBigInt(text.to_string())))
            .get_decimals()
            .unwrap()
    };
    assert_eq!(value("0"), 0);
    assert_eq!(value("255"), 255);
    assert_eq!(value("+18"), 18);
    assert_eq!(value("007"), 7);
}

#[test]
fn decimals_agree_with_std() {
    for text in ["", "+", "-", "-1", "0", "6", "18", "255", "256", "+255", "0255", "1a", "a1", "1_0"]
    {
        let ours = token_with_decimals(Some(SgBigInt(text.to_string())))
            .get_decimals()
            .ok();
        let theirs = text.parse::<u8>().ok();
        assert_eq!(ours, theirs, "literal {:?}", text);
    }
}

#[test]
fn ratio_carries_the_sign_of_the_quotient() {
    let ratio = get_trade().ratio().unwrap();
    assert!(ratio.negative);
    let inverse = get_trade().inverse_ratio().unwrap();
    assert!(inverse.negative);

    let mut trade = get_trade();
    trade.input_vault_balance_change.amount = SgBytes("-3000000".to_string());
    let ratio = trade.ratio().unwrap();
    assert!(!ratio.negative);
    assert_eq!(ratio.magnitude, Fixed18::from_u64(500_000_000_000_000_000));
}

#[test]
fn ratio_of_a_signed_zero_divisor_fails() {
    let mut trade = get_trade();
    trade.output_vault_balance_change.amount = SgBytes("-0".to_string());
    assert_eq!(trade.ratio().unwrap_err(), PerformanceError::DivByZero);
    // the inverse has a zero dividend and a proper divisor
    let inverse = trade.inverse_ratio().unwrap();
    assert!(inverse.magnitude.is_zero());

    let mut trade = get_trade();
    trade.input_vault_balance_change.amount = SgBytes("-0".to_string());
    assert_eq!(trade.inverse_ratio().unwrap_err(), PerformanceError::DivByZero);
    assert!(trade.ratio().unwrap().magnitude.is_zero());
}

#[test]
fn ratio_of_malformed_amounts_fails() {
    let mut trade = get_trade();
    trade.input_vault_balance_change.amount = SgBytes("".to_string());
    assert_eq!(
        trade.ratio().unwrap_err(),
        PerformanceError::ParseError(IntErrorKind::Empty)
    );
    trade.input_vault_balance_change.amount = SgBytes("12x".to_string());
    assert_eq!(
        trade.inverse_ratio().unwrap_err(),
        PerformanceError::ParseError(IntErrorKind::InvalidDigit)
    );
    let mut trade = get_trade();
    trade.output_vault_balance_change.amount = SgBytes("-".to_string());
    assert_eq!(
        trade.ratio().unwrap_err(),
        PerformanceError::ParseError(IntErrorKind::Empty)
    );
}

#[test]
fn ratio_times_inverse_is_one_where_both_divide_exactly() {
    // 3 / 6 and 6 / 3 are both exact
    let trade = get_trade();
    let ratio = trade.ratio().unwrap();
    let inverse = trade.inverse_ratio().unwrap();
    assert_eq!(ratio.magnitude.mul18(inverse.magnitude), Ok(Fixed18::one()));
    assert_eq!(Fixed18::one().div18(ratio.magnitude), Ok(inverse.magnitude));
}

#[test]
fn ratio_times_inverse_stays_below_one_where_a_division_truncates() {
    let mut trade = get_trade();
    trade.input_vault_balance_change.amount = SgBytes("3000".to_string());
    trade.output_vault_balance_change.amount = SgBytes("1".to_string());
    let ratio = trade.ratio().unwrap();
    let inverse = trade.inverse_ratio().unwrap();
    assert_eq!(
        ratio.magnitude,
        Fixed18::parse("3000000000000000000000").unwrap()
    );
    assert_eq!(inverse.magnitude, Fixed18::from_u64(333_333_333_333_333));
    assert_eq!(
        ratio.magnitude.mul18(inverse.magnitude),
        Ok(Fixed18::from_u64(999_999_999_999_999_000))
    );
    assert_eq!(
        SignedAmount::parse("-12").unwrap(),
        SignedAmount {
            magnitude: Fixed18::from_u64(12),
            negative: true
        }
    );
}

#[test]
fn ratio_times_inverse_falls_short_of_one_by_at_most_their_sum() {
    let one = U512::from(10u64).pow(U512::from(36u64));
    for (input, output) in [
        ("3000", "1"),
        ("1", "3000"),
        ("7", "-2"),
        ("-123456789", "987654321"),
        ("5000000000000000000", "-2000000000000000000"),
        ("1", "1"),
    ] {
        let mut trade = get_trade();
        trade.input_vault_balance_change.amount = SgBytes(input.to_string());
        trade.output_vault_balance_change.amount = SgBytes(output.to_string());
        let r = trade.ratio().unwrap().magnitude;
        let v = trade.inverse_ratio().unwrap().magnitude;
        let r = U512::from(U256::from_limbs([r.l0, r.l1, r.l2, r.l3]));
        let v = U512::from(U256::from_limbs([v.l0, v.l1, v.l2, v.l3]));
        assert!(r * v <= one);
        assert!(one - r * v <= r + v);
    }
}
