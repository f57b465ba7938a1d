use vstd::prelude::*;
use vstd::utf8::encode_utf8;
use crate::common::{padded_name, same_key, string_to_bytes32};
use crate::constants::{PERCENTAGE_PRECISION, SHARE_DECIMALS};
use crate::error::ErrorCode;
use crate::tranches::{sorted_by_ts, tranche_sum};
use crate::vault::Vault;
use crate::vault_depositor::VaultDepositor;
use crate::withdraw_request::WithdrawRequest;

verus! {

/// Parameters a manager creates a vault with.
pub struct VaultParams {
    pub name: String,
    pub lock_in_period: u64,
    pub redeem_period: u64,
    pub max_tokens: u64,
    pub management_fee: u64,
    pub min_deposit_amount: u64,
    pub profit_share: u32,
    pub hurdle_rate: u32,
    pub spot_market_index: u16,
    pub permissioned: bool,
}

/// Parameters a manager may change on an existing vault.
#[derive(Clone, Copy, Debug, PartialEq, Eq, Structural)]
pub struct UpdateVaultParams {
    pub lock_in_period: u64,
    pub redeem_period: u64,
    pub max_tokens: u64,
    pub management_fee: u64,
    pub min_deposit_amount: u64,
    pub profit_share: u32,
    pub hurdle_rate: u32,
    pub permissioned: bool,
}

/// Whether a fee and a profit share are both below 100%.
pub open spec fn fees_valid(management_fee: u64, profit_share: u32) -> bool {
    management_fee < PERCENTAGE_PRECISION && profit_share < PERCENTAGE_PRECISION
}

/// A new vault, with no shares, created by `manager` at `now` for a
/// settlement asset of `asset_decimals` decimals. Fails where the name
/// takes more than 32 bytes, where the management fee or the profit share
/// is 100% or more, or where the asset has more decimals than a share.
pub fn initialize_vault(
    params: &VaultParams,
    pubkey: [u8; 32],
    manager: [u8; 32],
    token_account: [u8; 32],
    user_stats: [u8; 32],
    user: [u8; 32],
    bump: u8,
    asset_decimals: u32,
    now: u64,
) -> (r: Result<Vault, ErrorCode>)
    ensures
        encode_utf8(params.name@).len() > 32 ==> r == Err::<Vault, ErrorCode>(
            ErrorCode::InvalidDataLength,
        ),
        encode_utf8(params.name@).len() <= 32 ==> (r is Ok <==> fees_valid(
            params.management_fee,
            params.profit_share,
        ) && asset_decimals <= SHARE_DECIMALS),
        r is Err ==> r == Err::<Vault, ErrorCode>(ErrorCode::InvalidDataLength) || r == Err::<
            Vault,
            ErrorCode,
        >(ErrorCode::InvalidVaultInitialization),
        r matches Ok(v) ==> {
            &&& v.wf()
            &&& v.name@ == padded_name(encode_utf8(params.name@))
            &&& v.pubkey == pubkey
            &&& v.manager == manager
            &&& v.token_account == token_account
            &&& v.user_stats == user_stats
            &&& v.user == user
            &&& v.total_shares == 0
            &&& v.user_shares == 0
            &&& v.redeem_period == params.redeem_period
            &&& v.max_tokens == params.max_tokens
            &&& v.management_fee == params.management_fee
            &&& v.min_deposit_amount == params.min_deposit_amount
            &&& v.profit_share == params.profit_share
            &&& v.hurdle_rate == params.hurdle_rate
            &&& v.spot_market_index == params.spot_market_index
            &&& v.asset_decimals == asset_decimals
            &&& v.permissioned == params.permissioned
            &&& v.init_ts == now
            &&& v.bump == bump
            &&& v.lock_in_period == params.lock_in_period
            &&& v.total_withdraw_requested == 0
            &&& v.manager_total_net_fee == 0
        },
{
    let name = params.name.as_str();
    if name.as_bytes().len() > 32 {
        return Err(ErrorCode::InvalidDataLength);
    }
    if params.management_fee >= PERCENTAGE_PRECISION {
        return Err(ErrorCode::InvalidVaultInitialization);
    }
    if params.profit_share as u64 >= PERCENTAGE_PRECISION {
        return Err(ErrorCode::InvalidVaultInitialization);
    }
    if asset_decimals > SHARE_DECIMALS {
        return Err(ErrorCode::InvalidVaultInitialization);
    }
    let name_32 = string_to_bytes32(name);
    Ok(
        Vault {
            name: name_32,
            pubkey,
            manager,
            token_account,
            user_stats,
            user,
            delegate: [0u8; 32],
            liquidation_delegate: [0u8; 32],
            user_shares: 0,
            total_shares: 0,
            last_fee_update_ts: 0,
            liquidation_start_ts: 0,
            lock_in_period: params.lock_in_period,
            redeem_period: params.redeem_period,
            total_withdraw_requested: 0,
            max_tokens: params.max_tokens,
            management_fee: params.management_fee,
            init_ts: now,
            net_deposits: 0,
            manager_net_deposits: 0,
            total_deposits: 0,
            total_withdraws: 0,
            manager_total_deposits: 0,
            manager_total_withdraws: 0,
            manager_total_fee: 0,
            manager_total_net_fee: 0,
            manager_total_profit_share: 0,
            min_deposit_amount: params.min_deposit_amount,
            shares_base: 0,
            profit_share: params.profit_share,
            hurdle_rate: params.hurdle_rate,
            spot_market_index: params.spot_market_index,
            asset_decimals,
            bump,
            permissioned: params.permissioned,
        },
    )
}

/// The vault with the parameters of `params`.
pub open spec fn with_params(v: Vault, params: UpdateVaultParams) -> Vault {
    Vault {
        lock_in_period: params.lock_in_period,
        redeem_period: params.redeem_period,
        max_tokens: params.max_tokens,
        management_fee: params.management_fee,
        min_deposit_amount: params.min_deposit_amount,
        profit_share: params.profit_share,
        hurdle_rate: params.hurdle_rate,
        permissioned: params.permissioned,
        ..v
    }
}

/// The manager changes the vault's parameters. Fails, changing nothing,
/// where `manager` is not the vault's manager, or where the management fee
/// or the profit share is 100% or more.
pub fn update_vault(vault: &mut Vault, manager: &[u8; 32], params: &UpdateVaultParams) -> (r:
    Result<(), ErrorCode>)
    requires
        old(vault).wf(),
    ensures
        old(vault).manager@ != manager@ ==> r == Err::<(), ErrorCode>(
            ErrorCode::InvalidVaultManager,
        ),
        old(vault).manager@ == manager@ && !fees_valid(params.management_fee, params.profit_share)
            ==> r == Err::<(), ErrorCode>(ErrorCode::InvalidVaultInitialization),
        r is Ok <==> old(vault).manager@ == manager@ && fees_valid(
            params.management_fee,
            params.profit_share,
        ),
        r is Err ==> *final(vault) == *old(vault),
        r is Ok ==> *final(vault) == with_params(*old(vault), *params),
        final(vault).wf(),
{
    if !same_key(&vault.manager, manager) {
        return Err(ErrorCode::InvalidVaultManager);
    }
    if params.management_fee >= PERCENTAGE_PRECISION {
        return Err(ErrorCode::InvalidVaultInitialization);
    }
    if params.profit_share as u64 >= PERCENTAGE_PRECISION {
        return Err(ErrorCode::InvalidVaultInitialization);
    }
    vault.lock_in_period = params.lock_in_period;
    vault.redeem_period = params.redeem_period;
    vault.max_tokens = params.max_tokens;
    vault.management_fee = params.management_fee;
    vault.min_deposit_amount = params.min_deposit_amount;
    vault.profit_share = params.profit_share;
    vault.hurdle_rate = params.hurdle_rate;
    vault.permissioned = params.permissioned;
    Ok(())
}

/// The manager names the vault's trading delegate at the venue; shares are
/// not touched. Fails, changing nothing, where `manager` is not the
/// vault's manager.
pub fn update_vault_delegate(vault: &mut Vault, manager: &[u8; 32], delegate: [u8; 32]) -> (r:
    Result<(), ErrorCode>)
    ensures
        r is Ok <==> old(vault).manager@ == manager@,
        r is Err ==> r == Err::<(), ErrorCode>(ErrorCode::InvalidVaultManager) && *final(vault)
            == *old(vault),
        r is Ok ==> *final(vault) == (Vault { delegate, ..*old(vault) }),
{
    if !same_key(&vault.manager, manager) {
        return Err(ErrorCode::InvalidVaultManager);
    }
    vault.delegate = delegate;
    Ok(())
}

/// The manager collects `amount` of the accrued fees. Fails, changing
/// nothing, where `manager` is not the vault's manager or `amount` exceeds
/// the fees accrued and not yet collected.
pub fn manager_collect_fees(vault: &mut Vault, manager: &[u8; 32], amount: u64) -> (r: Result<
    (),
    ErrorCode,
>)
    ensures
        old(vault).manager@ != manager@ ==> r == Err::<(), ErrorCode>(
            ErrorCode::InvalidVaultManager,
        ),
        old(vault).manager@ == manager@ && amount > old(vault).manager_total_net_fee ==> r == Err::<
            (),
            ErrorCode,
        >(ErrorCode::InsufficientFees),
        r is Ok <==> old(vault).manager@ == manager@ && amount <= old(vault).manager_total_net_fee,
        r is Err ==> *final(vault) == *old(vault),
        r is Ok ==> *final(vault) == (Vault {
            manager_total_net_fee: (old(vault).manager_total_net_fee - amount) as u64,
            ..*old(vault)
        }),
{
    if !same_key(&vault.manager, manager) {
        return Err(ErrorCode::InvalidVaultManager);
    }
    vault.manager_collect_fees(amount)
}

/// Registers `authority` as a depositor of `vault` (found at
/// `vault_address`), with an empty position. Fails where the vault is
/// permissioned and `authority` is not its manager, or where
/// `vault_address` is not the vault's address.
pub fn initialize_vault_depositor(
    vault: &Vault,
    vault_address: &[u8; 32],
    depositor_address: [u8; 32],
    authority: [u8; 32],
    now: u64,
) -> (r: Result<VaultDepositor, ErrorCode>)
    ensures
        vault.permissioned && vault.manager@ != authority@ ==> r == Err::<
            VaultDepositor,
            ErrorCode,
        >(ErrorCode::PermissionedVault),
        !(vault.permissioned && vault.manager@ != authority@) && vault.pubkey@ != vault_address@
            ==> r == Err::<VaultDepositor, ErrorCode>(ErrorCode::InvalidPDA),
        r is Ok <==> !(vault.permissioned && vault.manager@ != authority@) && vault.pubkey@
            == vault_address@,
        r matches Ok(d) ==> {
            &&& d.wf()
            &&& d.vault == *vault_address
            &&& d.pubkey == depositor_address
            &&& d.authority == authority
            &&& d.init_ts == now
            &&& d.vault_shares == 0
            &&& !d.last_withdraw_request.is_pending()
            &&& d.deposits@.len() == 0
            &&& d.net_deposits == 0
            &&& d.total_deposits == 0
            &&& d.total_withdraws == 0
        },
{
    if vault.permissioned && !same_key(&vault.manager, &authority) {
        return Err(ErrorCode::PermissionedVault);
    }
    if !same_key(&vault.pubkey, vault_address) {
        return Err(ErrorCode::InvalidPDA);
    }
    let d = VaultDepositor {
        vault: *vault_address,
        pubkey: depositor_address,
        authority,
        vault_shares: 0,
        last_withdraw_request: WithdrawRequest { shares: 0, value: 0, ts: 0 },
        init_ts: now,
        net_deposits: 0,
        total_deposits: 0,
        deposits: Vec::new(),
        total_withdraws: 0,
        cumulative_profit_share_amount: 0,
        profit_share_fee_paid: 0,
        vault_shares_base: 0,
    };
    proof {
        assert(tranche_sum(d.deposits@) == 0);
        assert(sorted_by_ts(d.deposits@));
    }
    Ok(d)
}

/// The manager removes the vault's trading delegate. Fails, changing
/// nothing, where `manager` is not the vault's manager, or where no
/// delegate is set (all zero bytes).
pub fn reset_delegate(vault: &mut Vault, manager: &[u8; 32]) -> (r: Result<(), ErrorCode>)
    ensures
        old(vault).manager@ != manager@ ==> r == Err::<(), ErrorCode>(
            ErrorCode::InvalidVaultManager,
        ),
        old(vault).manager@ == manager@ && old(vault).delegate@ == seq![0u8; 32] ==> r == Err::<
            (),
            ErrorCode,
        >(ErrorCode::InvalidInput),
        r is Ok <==> old(vault).manager@ == manager@ && old(vault).delegate@ != seq![0u8; 32],
        r is Err ==> *final(vault) == *old(vault),
        r is Ok ==> *final(vault) == (Vault { delegate: final(vault).delegate, ..*old(vault) })
            && final(vault).delegate@ == seq![0u8; 32],
{
    if !same_key(&vault.manager, manager) {
        return Err(ErrorCode::InvalidVaultManager);
    }
    let none: [u8; 32] = [0u8; 32];
    proof {
        assert(none@ =~= seq![0u8; 32]);
    }
    if same_key(&vault.delegate, &none) {
        return Err(ErrorCode::InvalidInput);
    }
    vault.delegate = none;
    Ok(())
}

} // verus!
