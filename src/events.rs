use vstd::prelude::*;
use crate::vault::Vault;
use crate::vault_depositor::VaultDepositor;

verus! {

/// What an audit record reports.
#[derive(Clone, Copy, Debug, PartialEq, Eq, Structural)]
pub enum VaultDepositorAction {
    Deposit,
    WithdrawRequest,
    CancelWithdrawRequest,
    Withdraw,
    CollectFees,
}

/// The share totals and fee counters that an audit record compares before
/// and after an operation. `vault_shares` are the acting party's: a
/// depositor's shares, or the manager's.
#[derive(Clone, Copy, Debug)]
pub struct Snapshot {
    pub vault_shares: u128,
    pub user_vault_shares: u128,
    pub total_vault_shares: u128,
    pub manager_total_fee: u64,
    pub manager_total_profit_share: u64,
}

impl Snapshot {
    /// The snapshot of a depositor's position in a vault.
    pub fn of_depositor(d: &VaultDepositor, v: &Vault) -> (r: Snapshot)
        ensures
            r.vault_shares == d.vault_shares,
            r.user_vault_shares == v.user_shares,
            r.total_vault_shares == v.total_shares,
            r.manager_total_fee == v.manager_total_fee,
            r.manager_total_profit_share == v.manager_total_profit_share,
    {
        Snapshot {
            vault_shares: d.vault_shares,
            user_vault_shares: v.user_shares,
            total_vault_shares: v.total_shares,
            manager_total_fee: v.manager_total_fee,
            manager_total_profit_share: v.manager_total_profit_share,
        }
    }

    /// The snapshot of the manager's position in a vault.
    pub fn of_manager(v: &Vault) -> (r: Snapshot)
        ensures
            r.vault_shares == v.total_shares.saturating_sub(v.user_shares),
            r.user_vault_shares == v.user_shares,
            r.total_vault_shares == v.total_shares,
            r.manager_total_fee == v.manager_total_fee,
            r.manager_total_profit_share == v.manager_total_profit_share,
    {
        Snapshot {
            vault_shares: v.get_manager_shares(),
            user_vault_shares: v.user_shares,
            total_vault_shares: v.total_shares,
            manager_total_fee: v.manager_total_fee,
            manager_total_profit_share: v.manager_total_profit_share,
        }
    }
}

/// An immutable audit record of one operation: the share totals before and
/// after it, the equity it was valued at, and the fees it charged.
#[derive(Clone, Copy, Debug)]
pub struct VaultDepositorRecord {
    pub ts: i64,
    pub vault: [u8; 32],
    pub depositor_authority: [u8; 32],
    pub action: VaultDepositorAction,
    pub amount: u64,
    pub spot_market_index: u16,
    pub vault_shares_before: u128,
    pub vault_shares_after: u128,
    pub vault_equity_before: u64,
    pub user_vault_shares_before: u128,
    pub total_vault_shares_before: u128,
    pub user_vault_shares_after: u128,
    pub total_vault_shares_after: u128,
    pub profit_share: u32,
    pub profit_share_amount: u64,
    pub management_fee: u64,
    pub management_fee_amount: u64,
}

impl VaultDepositorRecord {
    /// The record of `action` by `authority` on `vault` (as it is after
    /// the operation) at `ts`, for `amount`, valued at `vault_equity_before`,
    /// from the snapshots taken before and after. The fees charged are the
    /// growth of the manager's fee counters.
    pub fn new(
        action: VaultDepositorAction,
        ts: i64,
        authority: [u8; 32],
        vault: &Vault,
        amount: u64,
        vault_equity_before: u64,
        before: Snapshot,
        after: Snapshot,
    ) -> (r: VaultDepositorRecord)
        ensures
            r.ts == ts,
            r.vault == vault.pubkey,
            r.depositor_authority == authority,
            r.action == action,
            r.amount == amount,
            r.spot_market_index == vault.spot_market_index,
            r.vault_shares_before == before.vault_shares,
            r.vault_shares_after == after.vault_shares,
            r.vault_equity_before == vault_equity_before,
            r.user_vault_shares_before == before.user_vault_shares,
            r.total_vault_shares_before == before.total_vault_shares,
            r.user_vault_shares_after == after.user_vault_shares,
            r.total_vault_shares_after == after.total_vault_shares,
            r.profit_share == vault.profit_share,
            r.profit_share_amount == after.manager_total_profit_share.saturating_sub(
                before.manager_total_profit_share,
            ),
            r.management_fee == vault.management_fee,
            r.management_fee_amount == after.manager_total_fee.saturating_sub(
                before.manager_total_fee,
            ),
    {
        VaultDepositorRecord {
            ts,
            vault: vault.pubkey,
            depositor_authority: authority,
            action,
            amount,
            spot_market_index: vault.spot_market_index,
            vault_shares_before: before.vault_shares,
            vault_shares_after: after.vault_shares,
            vault_equity_before,
            user_vault_shares_before: before.user_vault_shares,
            total_vault_shares_before: before.total_vault_shares,
            user_vault_shares_after: after.user_vault_shares,
            total_vault_shares_after: after.total_vault_shares,
            profit_share: vault.profit_share,
            profit_share_amount: after.manager_total_profit_share.saturating_sub(
                before.manager_total_profit_share,
            ),
            management_fee: vault.management_fee,
            management_fee_amount: after.manager_total_fee.saturating_sub(before.manager_total_fee),
        }
    }
}

} // verus!
