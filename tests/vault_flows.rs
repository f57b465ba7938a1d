use drift_vault::error::ErrorCode;
use drift_vault::events::{Snapshot, VaultDepositorAction, VaultDepositorRecord};
use drift_vault::instructions::{
    initialize_vault, initialize_vault_depositor, manager_collect_fees, reset_delegate,
    update_vault, update_vault_delegate, UpdateVaultParams, VaultParams,
};
use drift_vault::vault::Vault;
use drift_vault::vault_depositor::VaultDepositor;

const MANAGER: [u8; 32] = [7u8; 32];
const VAULT_ADDRESS: [u8; 32] = [1u8; 32];
const DEPOSITOR: [u8; 32] = [9u8; 32];
const T0: i64 = 1_700_000_000;

fn params(management_fee: u64, profit_share: u32, redeem_period: u64) -> VaultParams {
    VaultParams {
        name: String::from("alpha"),
        lock_in_period: 0,
        redeem_period,
        max_tokens: 0,
        management_fee,
        min_deposit_amount: 0,
        profit_share,
        hurdle_rate: 0,
        spot_market_index: 0,
        permissioned: false,
    }
}

fn new_vault(management_fee: u64, profit_share: u32, redeem_period: u64) -> Vault {
    initialize_vault(
        &params(management_fee, profit_share, redeem_period),
        VAULT_ADDRESS,
        MANAGER,
        [2u8; 32],
        [3u8; 32],
        [4u8; 32],
        255,
        6,
        T0 as u64,
    )
    .unwrap()
}

fn new_depositor(vault: &Vault, authority: [u8; 32]) -> VaultDepositor {
    initialize_vault_depositor(vault, &VAULT_ADDRESS, [5u8; 32], authority, T0 as u64).unwrap()
}

fn update_params(vault: &Vault) -> UpdateVaultParams {
    UpdateVaultParams {
        lock_in_period: vault.lock_in_period,
        redeem_period: vault.redeem_period,
        max_tokens: vault.max_tokens,
        management_fee: vault.management_fee,
        min_deposit_amount: vault.min_deposit_amount,
        profit_share: vault.profit_share,
        hurdle_rate: vault.hurdle_rate,
        permissioned: vault.permissioned,
    }
}

#[test]
fn deposit_into_empty_pool_charges_rounded_up_fee() {
    let mut vault = new_vault(20_000, 0, 86_400);
    let mut depositor = new_depositor(&vault, DEPOSITOR);
    let r = depositor.deposit(1_000_000, 0, &mut vault, T0);
    assert_eq!(r, Ok((980_000, 20_000)));
    let shares = 980_000u128 * 1_000_000_000_000;
    assert_eq!(depositor.vault_shares, shares);
    assert_eq!(vault.total_shares, shares);
    assert_eq!(vault.user_shares, shares);
    assert_eq!(vault.total_shares, depositor.vault_shares);
    assert_eq!(vault.manager_total_fee, 20_000);
    assert_eq!(vault.manager_total_net_fee, 20_000);
    assert_eq!(depositor.net_deposits, 980_000);
    assert_eq!(vault.net_deposits, 980_000);
    assert_eq!(depositor.deposits.len(), 1);
    assert_eq!(depositor.deposits[0].shares, shares);
    assert_eq!(depositor.deposits[0].ts, T0);
}

#[test]
fn withdraw_waits_for_redeem_period_and_charges_profit_share_on_gain() {
    let mut vault = new_vault(20_000, 100_000, 86_400);
    let mut depositor = new_depositor(&vault, DEPOSITOR);
    depositor.deposit(1_000_000, 0, &mut vault, T0).unwrap();
    let all_shares = depositor.vault_shares;

    assert_eq!(depositor.request_withdraw(1_100_000, 1_100_000, &mut vault, T0), Ok(()));
    assert_eq!(depositor.last_withdraw_request.shares, all_shares);
    assert_eq!(depositor.last_withdraw_request.value, 1_100_000);
    assert_eq!(vault.total_withdraw_requested, 1_100_000);

    let early = depositor.withdraw(1_100_000, &mut vault, T0 + 3_600);
    assert_eq!(early, Err(ErrorCode::CannotWithdrawBeforeRedeemPeriodEnd));
    assert_eq!(depositor.vault_shares, all_shares);

    // 1,100,000 redeemed: fee ceil(1,100,000 * 2%) = 22,000; profit share
    // 10% of the 120,000 gain = 12,000, on the 1,078,000 left after the
    // fee out of the 1,100,000 position: 11,760.
    let done = depositor.withdraw(1_100_000, &mut vault, T0 + 86_400);
    assert_eq!(done, Ok((1_066_240, 33_760)));
    assert_eq!(vault.manager_total_profit_share, 11_760);
    assert_eq!(depositor.profit_share_fee_paid, 11_760);
    assert_eq!(vault.manager_total_fee, 20_000 + 22_000);
    assert_eq!(depositor.vault_shares, 0);
    assert_eq!(vault.total_shares, 0);
    assert_eq!(vault.user_shares, 0);
    assert_eq!(vault.total_withdraw_requested, 0);
    assert_eq!(depositor.last_withdraw_request.value, 0);
    assert_eq!(depositor.deposits.len(), 0);
}

#[test]
fn withdraw_without_request_fails() {
    let mut vault = new_vault(0, 0, 0);
    let mut depositor = new_depositor(&vault, DEPOSITOR);
    depositor.deposit(1_000, 0, &mut vault, T0).unwrap();
    assert_eq!(depositor.withdraw(1_000, &mut vault, T0 + 10), Err(ErrorCode::InvalidVaultWithdraw));
}

#[test]
fn request_while_pending_fails() {
    let mut vault = new_vault(0, 0, 0);
    let mut depositor = new_depositor(&vault, DEPOSITOR);
    depositor.deposit(1_000, 0, &mut vault, T0).unwrap();
    depositor.request_withdraw(100, 1_000, &mut vault, T0).unwrap();
    assert_eq!(
        depositor.request_withdraw(100, 1_000, &mut vault, T0),
        Err(ErrorCode::VaultWithdrawRequestInProgress)
    );
    assert_eq!(vault.total_withdraw_requested, 100);
}

#[test]
fn request_of_nothing_or_too_much_fails() {
    let mut vault = new_vault(0, 0, 0);
    let mut depositor = new_depositor(&vault, DEPOSITOR);
    depositor.deposit(1_000, 0, &mut vault, T0).unwrap();
    assert_eq!(
        depositor.request_withdraw(0, 1_000, &mut vault, T0),
        Err(ErrorCode::InvalidVaultWithdrawSize)
    );
    assert_eq!(
        depositor.request_withdraw(1_001, 1_000, &mut vault, T0),
        Err(ErrorCode::InvalidVaultWithdrawSize)
    );
    assert_eq!(depositor.last_withdraw_request.value, 0);
}

#[test]
fn request_respects_lock_in_period() {
    let mut vault = new_vault(0, 0, 0);
    let mut p = update_params(&vault);
    p.lock_in_period = 100;
    update_vault(&mut vault, &MANAGER, &p).unwrap();
    let mut depositor = new_depositor(&vault, DEPOSITOR);
    depositor.deposit(1_000, 0, &mut vault, T0).unwrap();
    depositor.deposit(1_000, 1_000, &mut vault, T0 + 50).unwrap();
    assert_eq!(
        depositor.calculate_withdrawable_shares(T0 + 120, 100),
        Ok(1_000u128 * 1_000_000_000_000)
    );
    assert_eq!(
        depositor.request_withdraw(1_500, 2_000, &mut vault, T0 + 120),
        Err(ErrorCode::InvalidVaultWithdrawSize)
    );
    assert_eq!(depositor.request_withdraw(1_000, 2_000, &mut vault, T0 + 120), Ok(()));
}

#[test]
fn cancel_returns_request_to_idle_and_restores_outstanding_total() {
    let mut vault = new_vault(0, 0, 0);
    let mut depositor = new_depositor(&vault, DEPOSITOR);
    depositor.deposit(1_000, 0, &mut vault, T0).unwrap();
    let before = vault.total_withdraw_requested;
    depositor.request_withdraw(400, 1_000, &mut vault, T0).unwrap();
    assert_eq!(vault.total_withdraw_requested, before + 400);
    assert_eq!(depositor.cancel_withdraw_request(&mut vault, T0 + 5), Ok(()));
    assert_eq!(vault.total_withdraw_requested, before);
    assert_eq!(depositor.last_withdraw_request.value, 0);
    assert_eq!(depositor.last_withdraw_request.shares, 0);
    assert_eq!(depositor.last_withdraw_request.ts, T0 + 5);
}

#[test]
fn deposit_over_capacity_or_below_minimum_changes_nothing() {
    let mut vault = new_vault(0, 0, 0);
    let mut p = update_params(&vault);
    p.max_tokens = 1_000;
    p.min_deposit_amount = 10;
    update_vault(&mut vault, &MANAGER, &p).unwrap();
    let mut depositor = new_depositor(&vault, DEPOSITOR);
    assert_eq!(depositor.deposit(600, 400, &mut vault, T0), Err(ErrorCode::VaultIsAtCapacity));
    assert_eq!(depositor.deposit(9, 0, &mut vault, T0), Err(ErrorCode::InvalidVaultDeposit));
    assert_eq!(vault.total_shares, 0);
    assert_eq!(depositor.vault_shares, 0);
    assert_eq!(depositor.deposits.len(), 0);
    assert_eq!(depositor.deposit(599, 400, &mut vault, T0).map(|r| r.0), Ok(599));
}

#[test]
fn deposit_into_pool_with_shares_but_no_equity_fails() {
    let mut vault = new_vault(0, 0, 0);
    let mut first = new_depositor(&vault, DEPOSITOR);
    first.deposit(1_000, 0, &mut vault, T0).unwrap();
    let mut second = new_depositor(&vault, [8u8; 32]);
    assert_eq!(second.deposit(1_000, 0, &mut vault, T0), Err(ErrorCode::InvalidEquityValue));
}

#[test]
fn shares_of_all_depositors_add_up_to_user_shares() {
    let mut vault = new_vault(10_000, 200_000, 0);
    let mut a = new_depositor(&vault, DEPOSITOR);
    let mut b = new_depositor(&vault, [8u8; 32]);
    a.deposit(500_000, 0, &mut vault, T0).unwrap();
    b.deposit(300_000, 495_000, &mut vault, T0 + 1).unwrap();
    vault.manager_deposit(100_000, 792_000).unwrap();
    a.request_withdraw(200_000, 900_000, &mut vault, T0 + 3).unwrap();
    a.withdraw(910_000, &mut vault, T0 + 4).unwrap();
    assert_eq!(vault.user_shares, a.vault_shares + b.vault_shares);
    assert_eq!(vault.total_shares, vault.user_shares + vault.get_manager_shares());
    assert!(vault.get_manager_shares() > 0);
}

#[test]
fn manager_deposit_and_withdraw_move_only_manager_shares() {
    let mut vault = new_vault(20_000, 0, 0);
    vault.manager_deposit(1_000, 0).unwrap();
    assert_eq!(vault.get_manager_shares(), 1_000u128 * 1_000_000_000_000);
    assert_eq!(vault.user_shares, 0);
    assert_eq!(vault.manager_total_deposits, 1_000);
    assert_eq!(vault.manager_withdraw(2_000, 1_000), Err(ErrorCode::InsufficientVaultShares));
    assert_eq!(vault.manager_withdraw(0, 1_000), Err(ErrorCode::InvalidVaultWithdrawSize));
    assert_eq!(vault.manager_withdraw(400, 1_000), Ok(()));
    assert_eq!(vault.get_manager_shares(), 600u128 * 1_000_000_000_000);
    assert_eq!(vault.manager_net_deposits, 600);
}

#[test]
fn manager_collects_only_accrued_fees() {
    let mut vault = new_vault(20_000, 0, 0);
    let mut depositor = new_depositor(&vault, DEPOSITOR);
    depositor.deposit(1_000_000, 0, &mut vault, T0).unwrap();
    assert_eq!(manager_collect_fees(&mut vault, &DEPOSITOR, 1), Err(ErrorCode::InvalidVaultManager));
    assert_eq!(manager_collect_fees(&mut vault, &MANAGER, 20_001), Err(ErrorCode::InsufficientFees));
    assert_eq!(manager_collect_fees(&mut vault, &MANAGER, 15_000), Ok(()));
    assert_eq!(vault.manager_total_net_fee, 5_000);
    assert_eq!(vault.manager_collect_fees(5_001), Err(ErrorCode::InsufficientFees));
}

#[test]
fn fees_of_100_percent_are_rejected() {
    assert_eq!(
        initialize_vault(&params(1_000_000, 0, 0), VAULT_ADDRESS, MANAGER, [0; 32], [0; 32], [0; 32], 1, 6, 0)
            .err(),
        Some(ErrorCode::InvalidVaultInitialization)
    );
    assert_eq!(
        initialize_vault(&params(0, 1_000_000, 0), VAULT_ADDRESS, MANAGER, [0; 32], [0; 32], [0; 32], 1, 6, 0)
            .err(),
        Some(ErrorCode::InvalidVaultInitialization)
    );
    let mut vault = new_vault(0, 0, 0);
    let mut p = update_params(&vault);
    p.management_fee = 1_000_000;
    assert_eq!(update_vault(&mut vault, &MANAGER, &p), Err(ErrorCode::InvalidVaultInitialization));
    p.management_fee = 999_999;
    p.profit_share = 1_000_000;
    assert_eq!(update_vault(&mut vault, &MANAGER, &p), Err(ErrorCode::InvalidVaultInitialization));
    assert_eq!(vault.management_fee, 0);
    p.profit_share = 999_999;
    assert_eq!(update_vault(&mut vault, &DEPOSITOR, &p), Err(ErrorCode::InvalidVaultManager));
    assert_eq!(update_vault(&mut vault, &MANAGER, &p), Ok(()));
    assert_eq!(vault.management_fee, 999_999);
    assert_eq!(vault.profit_share, 999_999);
}

#[test]
fn long_name_is_rejected() {
    let mut p = params(0, 0, 0);
    p.name = "a".repeat(33);
    let r = initialize_vault(&p, VAULT_ADDRESS, MANAGER, [0; 32], [0; 32], [0; 32], 1, 6, 0);
    assert_eq!(r.err(), Some(ErrorCode::InvalidDataLength));
}

#[test]
fn permissioned_vault_registers_only_its_manager() {
    let mut p = params(0, 0, 0);
    p.permissioned = true;
    let vault = initialize_vault(&p, VAULT_ADDRESS, MANAGER, [0; 32], [0; 32], [0; 32], 1, 6, 0).unwrap();
    assert_eq!(
        initialize_vault_depositor(&vault, &VAULT_ADDRESS, [5u8; 32], DEPOSITOR, 0).err(),
        Some(ErrorCode::PermissionedVault)
    );
    assert!(initialize_vault_depositor(&vault, &VAULT_ADDRESS, [5u8; 32], MANAGER, 0).is_ok());
    let open = new_vault(0, 0, 0);
    assert_eq!(
        initialize_vault_depositor(&open, &[0u8; 32], [5u8; 32], DEPOSITOR, 0).err(),
        Some(ErrorCode::InvalidPDA)
    );
}

#[test]
fn delegate_is_set_by_manager_only() {
    let mut vault = new_vault(0, 0, 0);
    assert_eq!(update_vault_delegate(&mut vault, &DEPOSITOR, [6u8; 32]), Err(ErrorCode::InvalidVaultManager));
    assert_eq!(vault.delegate, [0u8; 32]);
    assert_eq!(update_vault_delegate(&mut vault, &MANAGER, [6u8; 32]), Ok(()));
    assert_eq!(vault.delegate, [6u8; 32]);
}

#[test]
fn equity_valuation_rejects_bad_feeds() {
    let vault = new_vault(0, 0, 0);
    assert_eq!(vault.calculate_total_equity(5_000_000, false, 1_000_000, 1_000_000), Err(ErrorCode::InvalidOracle));
    assert_eq!(vault.calculate_total_equity(-1, true, 1_000_000, 1_000_000), Err(ErrorCode::InvalidOracle));
    assert_eq!(vault.calculate_total_equity(5_000_000, true, 1_000_000, 0), Err(ErrorCode::MathError));
    // 5 quote units at a price of 2.5 with 6 decimals is 2 asset units.
    assert_eq!(vault.calculate_total_equity(5_000_000, true, 1_000_000, 2_500_000), Ok(2_000_000));
    assert_eq!(vault.calculate_total_equity(i128::MAX, true, 2, 1), Err(ErrorCode::MathError));
}

#[test]
fn validity_checks_match_invariants() {
    let mut vault = new_vault(20_000, 0, 0);
    assert!(vault.is_valid());
    let mut depositor = new_depositor(&vault, DEPOSITOR);
    assert!(depositor.is_valid(&vault));
    depositor.deposit(1_000, 0, &mut vault, T0).unwrap();
    assert!(depositor.is_valid(&vault));
    let mut broken = new_depositor(&vault, DEPOSITOR);
    broken.vault_shares = 5;
    assert!(!broken.is_valid(&vault));
    vault.management_fee = 1_000_000;
    assert!(!vault.is_valid());
}

#[test]
fn vault_creation_keeps_parameters() {
    let mut p = params(20_000, 100_000, 86_400);
    p.lock_in_period = 3_600;
    p.max_tokens = 5_000_000;
    let vault = initialize_vault(&p, VAULT_ADDRESS, MANAGER, [2u8; 32], [3u8; 32], [4u8; 32], 254, 6, 42).unwrap();
    assert_eq!(vault.lock_in_period, 3_600);
    assert_eq!(vault.redeem_period, 86_400);
    assert_eq!(vault.max_tokens, 5_000_000);
    assert_eq!(vault.management_fee, 20_000);
    assert_eq!(vault.profit_share, 100_000);
    assert_eq!(vault.init_ts, 42);
    assert_eq!(vault.bump, 254);
    assert_eq!(&vault.name[..5], b"alpha");
    assert_eq!(vault.total_shares, 0);
    assert_eq!(vault.manager, MANAGER);
}

#[test]
fn share_issuance_that_would_overflow_is_refused() {
    let mut vault = new_vault(0, 0, 0);
    vault.total_shares = u128::MAX - 10;
    let mut depositor = new_depositor(&vault, DEPOSITOR);
    assert_eq!(depositor.deposit(1, 1, &mut vault, T0), Err(ErrorCode::Overflow));
    assert_eq!(vault.total_shares, u128::MAX - 10);
    assert_eq!(vault.manager_deposit(1, 1), Err(ErrorCode::Overflow));
}

#[test]
fn outstanding_requests_that_would_overflow_are_refused() {
    let mut vault = new_vault(0, 0, 0);
    let mut depositor = new_depositor(&vault, DEPOSITOR);
    depositor.deposit(1_000, 0, &mut vault, T0).unwrap();
    vault.total_withdraw_requested = u64::MAX - 5;
    assert_eq!(depositor.request_withdraw(10, 1_000, &mut vault, T0), Err(ErrorCode::Overflow));
    assert_eq!(depositor.last_withdraw_request.value, 0);
}

#[test]
fn delegate_reset_needs_manager_and_a_delegate() {
    let mut vault = new_vault(0, 0, 0);
    assert_eq!(reset_delegate(&mut vault, &MANAGER), Err(ErrorCode::InvalidInput));
    update_vault_delegate(&mut vault, &MANAGER, [6u8; 32]).unwrap();
    assert_eq!(reset_delegate(&mut vault, &DEPOSITOR), Err(ErrorCode::InvalidVaultManager));
    assert_eq!(vault.delegate, [6u8; 32]);
    assert_eq!(reset_delegate(&mut vault, &MANAGER), Ok(()));
    assert_eq!(vault.delegate, [0u8; 32]);
}

#[test]
fn deductions_never_exceed_the_redeemed_value() {
    let mut vault = new_vault(0, 0, 0);
    let mut depositor = new_depositor(&vault, DEPOSITOR);
    depositor.deposit(1_000, 0, &mut vault, T0).unwrap();
    let mut p = update_params(&vault);
    p.management_fee = 999_999;
    p.profit_share = 999_999;
    update_vault(&mut vault, &MANAGER, &p).unwrap();
    depositor.request_withdraw(2_000, 2_000, &mut vault, T0).unwrap();
    // gross 2,000: the fee takes ceil(1,999.998) = 2,000, leaving nothing
    // for a profit share
    let (net, deductions) = depositor.withdraw(2_000, &mut vault, T0 + 1).unwrap();
    assert_eq!((net, deductions), (0, 2_000));
    assert_eq!(net + deductions, 2_000);
    assert_eq!(vault.total_withdraw_requested, 0);
}

#[test]
fn audit_record_compares_before_and_after() {
    let mut vault = new_vault(20_000, 0, 0);
    let mut depositor = new_depositor(&vault, DEPOSITOR);
    let before = Snapshot::of_depositor(&depositor, &vault);
    depositor.deposit(1_000_000, 0, &mut vault, T0).unwrap();
    let after = Snapshot::of_depositor(&depositor, &vault);
    let r = VaultDepositorRecord::new(VaultDepositorAction::Deposit, T0, DEPOSITOR, &vault, 1_000_000, 0, before, after);
    assert_eq!(r.action, VaultDepositorAction::Deposit);
    assert_eq!(r.vault, VAULT_ADDRESS);
    assert_eq!(r.vault_shares_before, 0);
    assert_eq!(r.vault_shares_after, 980_000u128 * 1_000_000_000_000);
    assert_eq!(r.total_vault_shares_after, r.user_vault_shares_after);
    assert_eq!(r.management_fee_amount, 20_000);
    assert_eq!(r.profit_share_amount, 0);
    assert_eq!(r.management_fee, 20_000);
    let m = Snapshot::of_manager(&vault);
    assert_eq!(m.vault_shares, 0);
}
