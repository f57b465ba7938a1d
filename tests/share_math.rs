use std::str::FromStr;

use drift_vault::common::{bytes32_to_string, same_key, string_to_bytes32};
use drift_vault::constants::DRIFT_PROGRAM_ID;
use drift_vault::error::ErrorCode;
use drift_vault::instructions::{initialize_vault, initialize_vault_depositor, VaultParams};
use drift_vault::math::{calculate_amount_to_shares, checked_mul_div};
use drift_vault::tranches::DepositInfo;
use drift_vault::vault::Vault;
use drift_vault::vault_depositor::VaultDepositor;
use drift_vault::withdraw_request::WithdrawRequest;
use solana_program::pubkey::Pubkey;

fn vault_with(management_fee: u64, profit_share: u32) -> Vault {
    let p = VaultParams {
        name: String::from("beta"),
        lock_in_period: 0,
        redeem_period: 0,
        max_tokens: 0,
        management_fee,
        min_deposit_amount: 0,
        profit_share,
        hurdle_rate: 0,
        spot_market_index: 0,
        permissioned: false,
    };
    initialize_vault(&p, [1u8; 32], [7u8; 32], [0; 32], [0; 32], [0; 32], 1, 6, 0).unwrap()
}

#[test]
fn test_check_program_id() {
    let expected = Pubkey::from_str("dRiftyHA39MWEi3m9aunc5MzRF1JYuBsbn6VPcn33UH").unwrap();
    let actual = Pubkey::from_str(DRIFT_PROGRAM_ID).unwrap();
    println!("Expected Program ID: {}", expected);
    println!("Actual Program ID: {}", actual);
    assert_eq!(expected, actual);
}

const UNIT: u128 = 1_000_000_000_000;

#[test]
fn first_shares_scale_the_asset_decimals_to_eighteen() {
    assert_eq!(calculate_amount_to_shares(5, 0, 0, 6), Ok(5 * UNIT));
    assert_eq!(calculate_amount_to_shares(5, 0, 1_000, 9), Ok(5_000_000_000));
    assert_eq!(calculate_amount_to_shares(5, 0, 0, 18), Ok(5));
    assert_eq!(calculate_amount_to_shares(5, 0, 0, 0), Ok(5_000_000_000_000_000_000));
    assert_eq!(calculate_amount_to_shares(u64::MAX, 0, 0, 0), Ok(u64::MAX as u128 * 1_000_000_000_000_000_000));
    assert_eq!(calculate_amount_to_shares(5, 0, 0, 19), Err(ErrorCode::MathError));
    let p = VaultParams {
        name: String::from("gamma"),
        lock_in_period: 0,
        redeem_period: 0,
        max_tokens: 0,
        management_fee: 0,
        min_deposit_amount: 0,
        profit_share: 0,
        hurdle_rate: 0,
        spot_market_index: 0,
        permissioned: false,
    };
    let r = initialize_vault(&p, [1u8; 32], [7u8; 32], [0; 32], [0; 32], [0; 32], 1, 19, 0);
    assert_eq!(r.err(), Some(ErrorCode::InvalidVaultInitialization));
    let mut v = initialize_vault(&p, [1u8; 32], [7u8; 32], [0; 32], [0; 32], [0; 32], 1, 9, 0).unwrap();
    let mut d = initialize_vault_depositor(&v, &[1u8; 32], [5u8; 32], [9u8; 32], 0).unwrap();
    d.deposit(3, 0, &mut v, 0).unwrap();
    assert_eq!(d.vault_shares, 3_000_000_000);
}

#[test]
fn mul_div_is_exact_beyond_u128_products() {
    assert_eq!(checked_mul_div(u128::MAX, 2, 2), Some(u128::MAX));
    assert_eq!(checked_mul_div(u128::MAX, 3, 2), None);
    assert_eq!(checked_mul_div(u128::MAX, u64::MAX, u128::MAX), Some(u64::MAX as u128));
    assert_eq!(checked_mul_div(1u128 << 100, 1 << 40, 1u128 << 30), Some(1u128 << 110));
    assert_eq!(checked_mul_div(10, 7, 3), Some(23));
    assert_eq!(checked_mul_div(0, 7, 3), Some(0));
    assert_eq!(checked_mul_div(12345, 0, 7), Some(0));
}

#[test]
fn amount_to_shares_bootstraps_then_rounds_down() {
    assert_eq!(calculate_amount_to_shares(980_000, 0, 0, 6), Ok(980_000u128 * 1_000_000_000_000));
    assert_eq!(calculate_amount_to_shares(1, 3, 2, 6), Ok(1));
    assert_eq!(calculate_amount_to_shares(10, 1_000, 3, 6), Ok(3_333));
    assert_eq!(calculate_amount_to_shares(10, 1_000, 0, 6), Err(ErrorCode::InvalidEquityValue));
    assert_eq!(calculate_amount_to_shares(u64::MAX, u128::MAX, 1, 6), Err(ErrorCode::MathError));
}

#[test]
fn shares_to_amount_rounds_down_and_checks_total() {
    assert_eq!(VaultDepositor::calculate_shares_to_amount(1, 3, 2), Ok(0));
    assert_eq!(VaultDepositor::calculate_shares_to_amount(2, 3, 10), Ok(6));
    assert_eq!(VaultDepositor::calculate_shares_to_amount(5, 0, 10), Err(ErrorCode::InsufficientShares));
    assert_eq!(VaultDepositor::calculate_shares_to_amount(0, 0, 10), Ok(0));
    assert_eq!(VaultDepositor::calculate_shares_to_amount(4, 3, 10), Err(ErrorCode::InsufficientShares));
    assert_eq!(
        VaultDepositor::calculate_shares_to_amount(u128::MAX / 2, u128::MAX, u64::MAX),
        Ok(u64::MAX / 2)
    );
}

#[test]
fn round_trip_never_returns_more_than_paid() {
    for (amount, total, equity) in [(10u64, 1_000u128, 3u64), (7, 999, 1_000), (1, 1, 1), (123_456, 987_654_321, 55_555)] {
        let shares = calculate_amount_to_shares(amount, total, equity, 6).unwrap();
        if let Ok(back) = VaultDepositor::calculate_shares_to_amount(shares, total, equity) {
            assert!(back <= amount);
        }
    }
    let shares = calculate_amount_to_shares(7, 999, 1_000, 6).unwrap();
    assert_eq!(shares, 6);
    assert_eq!(VaultDepositor::calculate_shares_to_amount(shares, 999, 1_000), Ok(6));
    let shares = calculate_amount_to_shares(10, 1_000, 3_000, 6).unwrap();
    assert_eq!(VaultDepositor::calculate_shares_to_amount(shares, 1_000, 3_000), Ok(9));
}

#[test]
fn management_fee_rounds_up_and_stays_within_amount() {
    let vault = vault_with(20_000, 0);
    assert_eq!(vault.calculate_fees(1_000_000), 20_000);
    assert_eq!(vault.calculate_fees(1), 1);
    assert_eq!(vault.calculate_fees(49), 1);
    assert_eq!(vault.calculate_fees(51), 2);
    assert_eq!(vault.calculate_fees(0), 0);
    let heavy = vault_with(999_999, 0);
    assert_eq!(heavy.calculate_fees(u64::MAX), 18_446_725_626_965_477_906);
    assert_eq!(heavy.calculate_fees(1_000_000), 999_999);
}

#[test]
fn profit_share_only_on_gain() {
    let vault = vault_with(0, 200_000);
    let mut d = initialize_vault_depositor(&vault, &[1u8; 32], [5u8; 32], [9u8; 32], 0).unwrap();
    let mut v = vault;
    d.deposit(1_000, 0, &mut v, 0).unwrap();
    // at a loss and at break-even: nothing
    assert_eq!(d.calculate_profit_share(500, 800, &v), Ok(0));
    assert_eq!(d.calculate_profit_share(500, 1_000, &v), Ok(0));
    // 400 gain on a 1,400 position: 20% is 80; half the position withdrawn
    assert_eq!(d.calculate_profit_share(700, 1_400, &v), Ok(40));
    assert_eq!(d.calculate_profit_share(1_400, 1_400, &v), Ok(80));
}

#[test]
fn name_round_trips_through_32_bytes() {
    let b = string_to_bytes32("vault-one");
    assert_eq!(&b[..9], b"vault-one");
    assert!(b[9..].iter().all(|&c| c == 0));
    assert_eq!(bytes32_to_string(b), "vault-one");
    assert_eq!(bytes32_to_string([0u8; 32]), "");
    let full = [b'x'; 32];
    assert_eq!(bytes32_to_string(full), "x".repeat(32));
    let mut bad = [0u8; 32];
    bad[0] = 0xff;
    bad[1] = b'a';
    assert_eq!(bytes32_to_string(bad), "Invalid UTF-8");
    let mut cut = string_to_bytes32("ab");
    cut[3] = b'z';
    assert_eq!(bytes32_to_string(cut), "ab");
}

#[test]
fn keys_compare_by_every_byte() {
    let a = [3u8; 32];
    let mut b = [3u8; 32];
    assert!(same_key(&a, &b));
    b[31] = 4;
    assert!(!same_key(&a, &b));
}

#[test]
fn tranches_are_taken_oldest_first() {
    let vault = vault_with(0, 0);
    let mut v = vault;
    let mut d = initialize_vault_depositor(&v, &[1u8; 32], [5u8; 32], [9u8; 32], 0).unwrap();
    d.deposit(100, 0, &mut v, 30).unwrap();
    d.deposit(100, 100, &mut v, 10).unwrap();
    d.deposit(100, 200, &mut v, 20).unwrap();
    let unit = UNIT;
    let ts: Vec<i64> = d.deposits.iter().map(|t| t.ts).collect();
    assert_eq!(ts, vec![10, 20, 30]);
    assert_eq!(d.remove_shares(301 * unit), Err(ErrorCode::InsufficientShares));
    assert_eq!(d.deposits.len(), 3);
    assert_eq!(d.remove_shares(150 * unit), Ok(()));
    assert_eq!(d.deposits, vec![DepositInfo::new(20, 50 * unit), DepositInfo::new(30, 100 * unit)]);
}

#[test]
fn withdraw_request_transitions() {
    let vault = vault_with(0, 0);
    let mut r = WithdrawRequest { shares: 0, value: 0, ts: 0 };
    assert_eq!(r.set(100, 101, 5, 10, 3), Err(ErrorCode::InvalidVaultWithdrawSize));
    assert_eq!(r.set(100, 50, 11, 10, 3), Err(ErrorCode::InvalidVaultWithdrawSize));
    assert_eq!(r, WithdrawRequest { shares: 0, value: 0, ts: 0 });
    assert_eq!(r.set(100, 50, 5, 10, 3), Ok(()));
    assert_eq!(r, WithdrawRequest { shares: 50, value: 5, ts: 3 });
    assert_eq!(r.set(100, 50, 5, 10, 4), Err(ErrorCode::VaultWithdrawRequestInProgress));
    assert_eq!(r.check_redeem_period_finished(&vault, 3), Ok(()));
    assert_eq!(r.reset(9), Ok(()));
    assert_eq!(r, WithdrawRequest { shares: 0, value: 0, ts: 9 });
}
