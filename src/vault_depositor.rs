use vstd::prelude::*;
use crate::constants::PERCENTAGE_PRECISION;
use crate::error::ErrorCode;
use crate::math::{
    amount_for_shares, amount_to_shares_result, calculate_amount_to_shares, checked_mul_div,
    management_fee_of, mul_div, profit_share_of,
};
use crate::tranches::{
    fifo_remove, insert_pos, lemma_fifo_remove, lemma_insert_pos, lemma_insert_sorted,
    lemma_insert_sum, lemma_sum_prefix_step, lemma_unlocked_at_most_all, sorted_by_ts, tranche_sum,
    unlocked_sum, DepositInfo,
};
use crate::vault::{at_capacity, Vault};
use crate::withdraw_request::WithdrawRequest;

verus! {

/// One depositor's position in one vault.
pub struct VaultDepositor {
    /// The vault deposited into.
    pub vault: [u8; 32],
    /// This record's own address.
    pub pubkey: [u8; 32],
    /// The depositor, who may deposit and withdraw.
    pub authority: [u8; 32],
    /// The depositor's claim: `vault_shares / vault.total_shares` of the
    /// pool's equity.
    pub vault_shares: u128,
    /// The withdrawal request, pending or idle.
    pub last_withdraw_request: WithdrawRequest,
    pub init_ts: u64,
    /// Deposits less withdrawals, net of fees, over the position's life.
    pub net_deposits: u64,
    pub total_deposits: u64,
    /// The shares of each deposit still held, oldest first.
    pub deposits: Vec<DepositInfo>,
    pub total_withdraws: u64,
    /// Gains on which a profit share has been paid.
    pub cumulative_profit_share_amount: u64,
    /// Profit shares paid.
    pub profit_share_fee_paid: u64,
    /// Decimal exponent of `vault_shares`.
    pub vault_shares_base: u32,
}

/// What `VaultDepositor::calculate_shares_to_amount` returns.
pub open spec fn shares_to_amount_result(n_shares: u128, total_shares: u128, equity: u64) -> Result<
    u64,
    ErrorCode,
> {
    if n_shares > total_shares {
        Err(ErrorCode::InsufficientShares)
    } else {
        Ok(amount_for_shares(n_shares as int, total_shares as int, equity as int) as u64)
    }
}

/// What `VaultDepositor::deposit` returns: the amount deposited net of
/// the management fee, and the fee.
pub open spec fn deposit_result(v: Vault, amount: u64, vault_equity: u64) -> Result<
    (u64, u64),
    ErrorCode,
> {
    let fee = management_fee_of(amount as int, v.management_fee as int);
    let net = amount - fee;
    if at_capacity(v.max_tokens, vault_equity, amount) {
        Err(ErrorCode::VaultIsAtCapacity)
    } else if v.min_deposit_amount != 0 && amount < v.min_deposit_amount {
        Err(ErrorCode::InvalidVaultDeposit)
    } else {
        match amount_to_shares_result(net as u64, v.total_shares, vault_equity, v.asset_decimals) {
            Err(e) => Err(e),
            Ok(shares) => if v.total_shares + shares > u128::MAX {
                Err(ErrorCode::Overflow)
            } else {
                Ok((net as u64, fee as u64))
            },
        }
    }
}

/// What `VaultDepositor::request_withdraw` returns.
pub open spec fn request_withdraw_result(
    d: VaultDepositor,
    v: Vault,
    withdraw_amount: u64,
    vault_equity: u64,
    now: i64,
) -> Result<(), ErrorCode> {
    if d.last_withdraw_request.value != 0 {
        Err(ErrorCode::VaultWithdrawRequestInProgress)
    } else {
        match amount_to_shares_result(withdraw_amount, v.total_shares, vault_equity, v.asset_decimals) {
            Err(e) => Err(e),
            Ok(shares) => if shares == 0 {
                Err(ErrorCode::InvalidVaultWithdrawSize)
            } else if shares > unlocked_sum(d.deposits@, now, v.lock_in_period) {
                Err(ErrorCode::InvalidVaultWithdrawSize)
            } else if withdraw_amount > vault_equity {
                Err(ErrorCode::InvalidVaultWithdrawSize)
            } else if v.total_withdraw_requested + withdraw_amount > u64::MAX {
                Err(ErrorCode::Overflow)
            } else {
                Ok(())
            },
        }
    }
}

/// Asset value of the depositor's whole position.
pub open spec fn position_value(d: VaultDepositor, v: Vault, vault_equity: u64) -> int {
    amount_for_shares(d.vault_shares as int, v.total_shares as int, vault_equity as int)
}

/// Asset value of the shares of the pending request.
pub open spec fn request_value(d: VaultDepositor, v: Vault, vault_equity: u64) -> int {
    amount_for_shares(
        d.last_withdraw_request.shares as int,
        v.total_shares as int,
        vault_equity as int,
    )
}

/// Management fee on the redemption of the pending request.
pub open spec fn withdraw_fee(d: VaultDepositor, v: Vault, vault_equity: u64) -> u64 {
    management_fee_of(request_value(d, v, vault_equity), v.management_fee as int) as u64
}

/// Profit share on the redemption of the pending request, charged after
/// the management fee: on the value of the shares less that fee.
pub open spec fn withdraw_profit_share(d: VaultDepositor, v: Vault, vault_equity: u64) -> u64 {
    profit_share_of(
        position_value(d, v, vault_equity),
        d.net_deposits as int,
        v.profit_share as int,
        request_value(d, v, vault_equity) - withdraw_fee(d, v, vault_equity),
    ) as u64
}

/// Fee and profit share together.
pub open spec fn withdraw_deductions(d: VaultDepositor, v: Vault, vault_equity: u64) -> u64 {
    (withdraw_fee(d, v, vault_equity) + withdraw_profit_share(d, v, vault_equity)) as u64
}

/// What the depositor receives on redemption: the value of the shares
/// less the deductions.
pub open spec fn withdraw_net(d: VaultDepositor, v: Vault, vault_equity: u64) -> u64 {
    (request_value(d, v, vault_equity) - withdraw_deductions(d, v, vault_equity)) as u64
}

/// The position lies within the vault's totals: its shares are part of the
/// user shares, and the value of its request part of the outstanding
/// requests.
pub open spec fn within(d: VaultDepositor, v: Vault) -> bool {
    &&& d.vault_shares <= v.user_shares
    &&& d.last_withdraw_request.value <= v.total_withdraw_requested
}

/// What `VaultDepositor::withdraw` returns: the amount paid out and the
/// deductions kept by the manager.
pub open spec fn withdraw_result(d: VaultDepositor, v: Vault, vault_equity: u64, now: i64) -> Result<
    (u64, u64),
    ErrorCode,
> {
    if !d.last_withdraw_request.redeem_period_finished(v.redeem_period, now) {
        Err(ErrorCode::CannotWithdrawBeforeRedeemPeriodEnd)
    } else if d.last_withdraw_request.shares == 0 {
        Err(ErrorCode::InvalidVaultWithdraw)
    } else {
        Ok((withdraw_net(d, v, vault_equity), withdraw_deductions(d, v, vault_equity)))
    }
}

/// All of the depositor's fields but the ones named are unchanged.
pub open spec fn same_identity(d0: VaultDepositor, d1: VaultDepositor) -> bool {
    &&& d1.vault == d0.vault
    &&& d1.pubkey == d0.pubkey
    &&& d1.authority == d0.authority
    &&& d1.init_ts == d0.init_ts
    &&& d1.cumulative_profit_share_amount == d0.cumulative_profit_share_amount
    &&& d1.vault_shares_base == d0.vault_shares_base
}

/// The depositor is unchanged.
pub open spec fn unchanged(d0: VaultDepositor, d1: VaultDepositor) -> bool {
    &&& same_identity(d0, d1)
    &&& d1.vault_shares == d0.vault_shares
    &&& d1.last_withdraw_request == d0.last_withdraw_request
    &&& d1.net_deposits == d0.net_deposits
    &&& d1.total_deposits == d0.total_deposits
    &&& d1.deposits@ == d0.deposits@
    &&& d1.total_withdraws == d0.total_withdraws
    &&& d1.profit_share_fee_paid == d0.profit_share_fee_paid
}

/// The depositor after a deposit of `net` (net of fee) for `shares`.
pub open spec fn deposited(
    d0: VaultDepositor,
    d1: VaultDepositor,
    net: u64,
    shares: u128,
    now: i64,
) -> bool {
    &&& same_identity(d0, d1)
    &&& d1.vault_shares == d0.vault_shares + shares
    &&& d1.last_withdraw_request == d0.last_withdraw_request
    &&& d1.net_deposits == d0.net_deposits.saturating_add(net)
    &&& d1.total_deposits == d0.total_deposits.saturating_add(net)
    &&& d1.deposits@ == d0.deposits@.insert(
        insert_pos(d0.deposits@, now),
        DepositInfo { ts: now, shares },
    )
    &&& d1.total_withdraws == d0.total_withdraws
    &&& d1.profit_share_fee_paid == d0.profit_share_fee_paid
}

/// The vault after a depositor's deposit of `net` for `shares`, with
/// `fee` kept by the manager.
pub open spec fn vault_after_deposit(v: Vault, net: u64, fee: u64, shares: u128) -> Vault {
    Vault {
        manager_total_fee: v.manager_total_fee.saturating_add(fee),
        manager_total_net_fee: v.manager_total_net_fee.saturating_add(fee),
        total_deposits: v.total_deposits.saturating_add(net),
        net_deposits: v.net_deposits.saturating_add(net),
        total_shares: (v.total_shares + shares) as u128,
        user_shares: (v.user_shares + shares) as u128,
        ..v
    }
}

/// The depositor after redeeming its pending request at `vault_equity`.
pub open spec fn withdrawn(
    d0: VaultDepositor,
    d1: VaultDepositor,
    v: Vault,
    vault_equity: u64,
    now: i64,
) -> bool {
    let shares = d0.last_withdraw_request.shares;
    let net = withdraw_net(d0, v, vault_equity);
    &&& same_identity(d0, d1)
    &&& d1.vault_shares == d0.vault_shares - shares
    &&& d1.last_withdraw_request == WithdrawRequest::idle(now)
    &&& d1.net_deposits == d0.net_deposits.saturating_sub(net)
    &&& d1.total_deposits == d0.total_deposits
    &&& d1.deposits@ == fifo_remove(d0.deposits@, shares as int)
    &&& d1.total_withdraws == d0.total_withdraws.saturating_add(net)
    &&& d1.profit_share_fee_paid == d0.profit_share_fee_paid.saturating_add(
        withdraw_profit_share(d0, v, vault_equity),
    )
}

/// The vault after the depositor `d` redeemed its pending request.
pub open spec fn vault_after_withdraw(d: VaultDepositor, v: Vault, vault_equity: u64) -> Vault {
    let shares = d.last_withdraw_request.shares;
    let net = withdraw_net(d, v, vault_equity);
    Vault {
        manager_total_fee: v.manager_total_fee.saturating_add(withdraw_fee(d, v, vault_equity)),
        manager_total_profit_share: v.manager_total_profit_share.saturating_add(
            withdraw_profit_share(d, v, vault_equity),
        ),
        manager_total_net_fee: v.manager_total_net_fee.saturating_add(
            withdraw_deductions(d, v, vault_equity),
        ),
        total_withdraws: v.total_withdraws.saturating_add(net),
        net_deposits: v.net_deposits.saturating_sub(net),
        total_shares: (v.total_shares - shares) as u128,
        user_shares: (v.user_shares - shares) as u128,
        total_withdraw_requested: (v.total_withdraw_requested - d.last_withdraw_request.value) as u64,
        ..v
    }
}

/// What `VaultDepositor::calculate_profit_share` returns.
pub open spec fn profit_share_result(d: VaultDepositor, v: Vault, amount: u64, vault_equity: u64) -> Result<
    u64,
    ErrorCode,
> {
    let ps = profit_share_of(
        position_value(d, v, vault_equity),
        d.net_deposits as int,
        v.profit_share as int,
        amount as int,
    );
    if d.vault_shares > v.total_shares {
        Err(ErrorCode::InsufficientShares)
    } else if ps > u64::MAX {
        Err(ErrorCode::MathError)
    } else {
        Ok(ps as u64)
    }
}

/// The depositor after recording a request for `shares` worth `value`.
pub open spec fn requested(
    d0: VaultDepositor,
    d1: VaultDepositor,
    shares: u128,
    value: u64,
    now: i64,
) -> bool {
    &&& same_identity(d0, d1)
    &&& d1.vault_shares == d0.vault_shares
    &&& d1.last_withdraw_request == (WithdrawRequest { shares, value, ts: now })
    &&& d1.net_deposits == d0.net_deposits
    &&& d1.total_deposits == d0.total_deposits
    &&& d1.deposits@ == d0.deposits@
    &&& d1.total_withdraws == d0.total_withdraws
    &&& d1.profit_share_fee_paid == d0.profit_share_fee_paid
}

/// The depositor after its request went back to Idle at `now`.
pub open spec fn cancelled(d0: VaultDepositor, d1: VaultDepositor, now: i64) -> bool {
    &&& same_identity(d0, d1)
    &&& d1.vault_shares == d0.vault_shares
    &&& d1.last_withdraw_request == WithdrawRequest::idle(now)
    &&& d1.net_deposits == d0.net_deposits
    &&& d1.total_deposits == d0.total_deposits
    &&& d1.deposits@ == d0.deposits@
    &&& d1.total_withdraws == d0.total_withdraws
    &&& d1.profit_share_fee_paid == d0.profit_share_fee_paid
}

/// The depositor with only its tranches changed, to `deposits`.
pub open spec fn with_deposits(
    d0: VaultDepositor,
    d1: VaultDepositor,
    deposits: Seq<DepositInfo>,
) -> bool {
    &&& same_identity(d0, d1)
    &&& d1.vault_shares == d0.vault_shares
    &&& d1.last_withdraw_request == d0.last_withdraw_request
    &&& d1.net_deposits == d0.net_deposits
    &&& d1.total_deposits == d0.total_deposits
    &&& d1.deposits@ == deposits
    &&& d1.total_withdraws == d0.total_withdraws
    &&& d1.profit_share_fee_paid == d0.profit_share_fee_paid
}

impl VaultDepositor {
    /// The position's invariant: the tranches, oldest first, hold exactly
    /// the position's shares, and a pending request reserves some of them.
    pub open spec fn wf(&self) -> bool {
        &&& tranche_sum(self.deposits@) == self.vault_shares
        &&& sorted_by_ts(self.deposits@)
        &&& self.last_withdraw_request.shares <= self.vault_shares
        &&& (self.last_withdraw_request.value == 0) == (self.last_withdraw_request.shares == 0)
    }

    /// Checks the position's invariant, and that its shares are part of
    /// the vault's user shares.
    pub fn is_valid(&self, vault: &Vault) -> (r: bool)
        ensures
            r == (self.wf() && within(*self, *vault)),
    {
        let req = self.last_withdraw_request;
        if req.shares > self.vault_shares || (req.value == 0) != (req.shares == 0)
            || self.vault_shares > vault.user_shares || req.value > vault.total_withdraw_requested {
            return false;
        }
        let mut sum: u128 = 0;
        let mut i: usize = 0;
        while i < self.deposits.len()
            invariant
                0 <= i <= self.deposits@.len(),
                sum == tranche_sum(self.deposits@.subrange(0, i as int)),
                sorted_by_ts(self.deposits@.subrange(0, i as int)),
            decreases self.deposits@.len() - i,
        {
            let d = self.deposits[i];
            proof {
                lemma_sum_prefix_step(self.deposits@, i as int, 0, 0);
            }
            if i > 0 && self.deposits[i - 1].ts > d.ts {
                proof {
                    if sorted_by_ts(self.deposits@) {
                        assert(self.deposits@[i - 1].ts <= self.deposits@[i as int].ts);
                    }
                }
                return false;
            }
            if d.shares > u128::MAX - sum {
                proof {
                    crate::tranches::lemma_prefix_sum_le(self.deposits@, i as int + 1);
                }
                return false;
            }
            proof {
                let s = self.deposits@.subrange(0, i as int + 1);
                assert forall|a: int, b: int| 0 <= a < b < s.len() implies s[a].ts <= s[b].ts by {
                    if b < i {
                        assert(s[a] == self.deposits@.subrange(0, i as int)[a]);
                        assert(s[b] == self.deposits@.subrange(0, i as int)[b]);
                    } else if a < i - 1 {
                        assert(s[a] == self.deposits@.subrange(0, i as int)[a]);
                        assert(s[i - 1] == self.deposits@.subrange(0, i as int)[i - 1]);
                    }
                }
            }
            sum = sum + d.shares;
            i = i + 1;
        }
        proof {
            assert(self.deposits@.subrange(0, self.deposits@.len() as int) =~= self.deposits@);
        }
        sum == self.vault_shares
    }

    /// Asset value of `n_shares` out of `total_vault_shares` shares worth
    /// `total_value_locked`, rounded down. Fails where `n_shares` exceeds
    /// the total.
    pub fn calculate_shares_to_amount(
        n_shares: u128,
        total_vault_shares: u128,
        total_value_locked: u64,
    ) -> (r: Result<u64, ErrorCode>)
        ensures
            r == shares_to_amount_result(n_shares, total_vault_shares, total_value_locked),
            r matches Ok(a) ==> a <= total_value_locked,
    {
        if n_shares > total_vault_shares {
            return Err(ErrorCode::InsufficientShares);
        }
        if total_vault_shares == 0 {
            return Ok(0);
        }
        proof {
            assert(mul_div(n_shares as int, total_value_locked as int, total_vault_shares as int)
                <= total_value_locked) by (nonlinear_arith)
                requires
                    n_shares <= total_vault_shares,
                    total_vault_shares > 0,
                    total_value_locked >= 0,
                    n_shares >= 0,
            {
                vstd::arithmetic::div_mod::lemma_multiply_divide_le(
                    n_shares * total_value_locked,
                    total_vault_shares as int,
                    total_value_locked as int,
                );
            }
        }
        match checked_mul_div(n_shares, total_value_locked, total_vault_shares) {
            Some(amount) => Ok(amount as u64),
            None => Err(ErrorCode::MathError),
        }
    }

    /// Shares of the deposits that have served `lock_in_period` at
    /// `current_timestamp`: those the depositor may ask to withdraw.
    pub fn calculate_withdrawable_shares(&self, current_timestamp: i64, lock_in_period: u64) -> (r:
        Result<u128, ErrorCode>)
        requires
            self.wf(),
        ensures
            r == Ok::<u128, ErrorCode>(
                unlocked_sum(self.deposits@, current_timestamp, lock_in_period) as u128,
            ),
    {
        let mut withdrawable: u128 = 0;
        let mut i: usize = 0;
        while i < self.deposits.len()
            invariant
                0 <= i <= self.deposits@.len(),
                self.wf(),
                withdrawable == unlocked_sum(
                    self.deposits@.subrange(0, i as int),
                    current_timestamp,
                    lock_in_period,
                ),
            decreases self.deposits@.len() - i,
        {
            let deposit = self.deposits[i];
            proof {
                lemma_sum_prefix_step(self.deposits@, i as int, current_timestamp, lock_in_period);
                lemma_unlocked_at_most_all(
                    self.deposits@.subrange(0, i as int + 1),
                    current_timestamp,
                    lock_in_period,
                );
                crate::tranches::lemma_prefix_sum_le(self.deposits@, i as int + 1);
            }
            if deposit.ts as i128 + lock_in_period as i128 <= current_timestamp as i128 {
                withdrawable = withdrawable + deposit.shares;
            }
            i = i + 1;
        }
        proof {
            assert(self.deposits@.subrange(0, self.deposits@.len() as int) =~= self.deposits@);
        }
        Ok(withdrawable)
    }

    /// Takes `shares_to_remove` shares out of the tranches, oldest first.
    /// Fails, changing nothing, where the tranches hold fewer.
    pub fn remove_shares(&mut self, shares_to_remove: u128) -> (r: Result<(), ErrorCode>)
        requires
            old(self).wf(),
        ensures
            r is Err <==> shares_to_remove > old(self).vault_shares,
            r is Err ==> r == Err::<(), ErrorCode>(ErrorCode::InsufficientShares) && unchanged(
                *old(self),
                *final(self),
            ),
            r is Ok ==> with_deposits(
                *old(self),
                *final(self),
                fifo_remove(old(self).deposits@, shares_to_remove as int),
            ),
    {
        if shares_to_remove > self.vault_shares {
            return Err(ErrorCode::InsufficientShares);
        }
        let mut remaining: u128 = shares_to_remove;
        while remaining > 0 && self.deposits.len() > 0
            invariant
                with_deposits(*old(self), *self, self.deposits@),
                fifo_remove(old(self).deposits@, shares_to_remove as int) == fifo_remove(
                    self.deposits@,
                    remaining as int,
                ),
            decreases self.deposits@.len(), remaining,
        {
            let first = self.deposits[0];
            if first.shares <= remaining {
                remaining = remaining - first.shares;
                let _ = self.deposits.remove(0);
            } else {
                self.deposits.set(0, DepositInfo::new(first.ts, first.shares - remaining));
                remaining = 0;
            }
        }
        Ok(())
    }

    /// Adds a tranche after every tranche made no later than it.
    fn insert_deposit(&mut self, info: DepositInfo)
        ensures
            with_deposits(
                *old(self),
                *final(self),
                old(self).deposits@.insert(insert_pos(old(self).deposits@, info.ts), info),
            ),
    {
        let mut i: usize = self.deposits.len();
        proof {
            assert(self.deposits@.subrange(0, i as int) =~= self.deposits@);
        }
        while i > 0 && self.deposits[i - 1].ts > info.ts
            invariant
                0 <= i <= self.deposits@.len(),
                *self == *old(self),
                insert_pos(self.deposits@, info.ts) == insert_pos(
                    self.deposits@.subrange(0, i as int),
                    info.ts,
                ),
            decreases i,
        {
            proof {
                assert(self.deposits@.subrange(0, i as int).drop_last() =~= self.deposits@.subrange(
                    0,
                    i as int - 1,
                ));
            }
            i = i - 1;
        }
        proof {
            assert(self.deposits@.subrange(0, self.deposits@.len() as int) =~= self.deposits@);
            if i > 0 {
                assert(self.deposits@.subrange(0, i as int).last() == self.deposits@[i as int - 1]);
            }
        }
        self.deposits.insert(i, info);
    }

    /// Deposits `amount` at `vault_equity` (measured before the deposit):
    /// the management fee is taken from it and the rest buys shares, which
    /// go to the depositor and to the vault together. Returns the amount
    /// net of the fee, and the fee. Fails, changing nothing, where the
    /// vault would reach its capacity, the amount is below the minimum,
    /// or the shares cannot be issued.
    pub fn deposit(&mut self, amount: u64, vault_equity: u64, vault: &mut Vault, now: i64) -> (r:
        Result<(u64, u64), ErrorCode>)
        requires
            old(self).wf(),
            old(vault).wf(),
            within(*old(self), *old(vault)),
        ensures
            r == deposit_result(*old(vault), amount, vault_equity),
            r is Err ==> unchanged(*old(self), *final(self)) && *final(vault) == *old(vault),
            r matches Ok((net, fee)) ==> {
                let shares = amount_to_shares_result(net, old(vault).total_shares, vault_equity, old(vault).asset_decimals)->Ok_0;
                &&& deposited(*old(self), *final(self), net, shares, now)
                &&& *final(vault) == vault_after_deposit(*old(vault), net, fee, shares)
            },
            final(self).wf(),
            final(vault).wf(),
            within(*final(self), *final(vault)),
    {
        if vault.max_tokens != 0 && vault.max_tokens as u128 <= vault_equity as u128 + amount as u128 {
            return Err(ErrorCode::VaultIsAtCapacity);
        }
        if vault.min_deposit_amount != 0 && amount < vault.min_deposit_amount {
            return Err(ErrorCode::InvalidVaultDeposit);
        }
        let management_fee = vault.calculate_fees(amount);
        let net = amount - management_fee;
        let new_shares = match calculate_amount_to_shares(net, vault.total_shares, vault_equity, vault.asset_decimals) {
            Ok(shares) => shares,
            Err(e) => {
                return Err(e);
            },
        };
        if new_shares > u128::MAX - vault.total_shares {
            return Err(ErrorCode::Overflow);
        }
        self.total_deposits = self.total_deposits.saturating_add(net);
        self.net_deposits = self.net_deposits.saturating_add(net);
        self.vault_shares = self.vault_shares + new_shares;
        proof {
            let tranche = DepositInfo { ts: now, shares: new_shares };
            lemma_insert_pos(self.deposits@, now);
            lemma_insert_sum(self.deposits@, insert_pos(self.deposits@, now), tranche);
            lemma_insert_sorted(self.deposits@, tranche);
        }
        self.insert_deposit(DepositInfo::new(now, new_shares));

        vault.manager_total_fee = vault.manager_total_fee.saturating_add(management_fee);
        vault.manager_total_net_fee = vault.manager_total_net_fee.saturating_add(management_fee);
        vault.total_deposits = vault.total_deposits.saturating_add(net);
        vault.net_deposits = vault.net_deposits.saturating_add(net);
        vault.total_shares = vault.total_shares + new_shares;
        vault.user_shares = vault.user_shares + new_shares;
        Ok((net, management_fee))
    }

    /// Profit share on a withdrawal of `amount` from this position at
    /// `vault_equity`: `vault.profit_share` of the position's gain over its
    /// net deposits, scaled to the part of the position withdrawn; nothing
    /// when the position is not in gain.
    pub fn calculate_profit_share(&self, amount: u64, vault_equity: u64, vault: &Vault) -> (r:
        Result<u64, ErrorCode>)
        requires
            vault.wf(),
        ensures
            r == profit_share_result(*self, *vault, amount, vault_equity),
    {
        let total_amount = match Self::calculate_shares_to_amount(
            self.vault_shares,
            vault.total_shares,
            vault_equity,
        ) {
            Ok(a) => a,
            Err(e) => {
                return Err(e);
            },
        };
        proof {
            crate::math::lemma_amount_for_shares_monotone(
                self.vault_shares as int,
                self.vault_shares as int,
                vault.total_shares as int,
                vault_equity as int,
            );
        }
        let total_profit = total_amount.saturating_sub(self.net_deposits);
        if total_profit > 0 {
            let ps = vault.profit_share as u128;
            proof {
                assert(total_profit * ps <= total_profit * PERCENTAGE_PRECISION) by (nonlinear_arith)
                    requires ps <= PERCENTAGE_PRECISION;
            }
            let cut: u128 = total_profit as u128 * ps / PERCENTAGE_PRECISION as u128;
            proof {
                assert(cut <= total_profit) by (nonlinear_arith)
                    requires
                        cut == total_profit * ps / (PERCENTAGE_PRECISION as int),
                        total_profit * ps <= total_profit * PERCENTAGE_PRECISION,
                        total_profit >= 0,
                        ps >= 0,
                {
                    vstd::arithmetic::div_mod::lemma_multiply_divide_le(
                        total_profit * ps,
                        PERCENTAGE_PRECISION as int,
                        total_profit as int,
                    );
                }
                assert(cut * amount <= u64::MAX * u64::MAX) by (nonlinear_arith)
                    requires
                        cut <= u64::MAX,
                        amount <= u64::MAX,
                        cut >= 0,
                        amount >= 0,
                ;
            }
            let scaled: u128 = cut * amount as u128 / total_amount as u128;
            if scaled > u64::MAX as u128 {
                return Err(ErrorCode::MathError);
            }
            Ok(scaled as u64)
        } else {
            Ok(0)
        }
    }

    /// Requests to withdraw `withdraw_amount` at `vault_equity` (Idle to
    /// Pending): the shares it is worth are reserved, and its value is
    /// added to the vault's outstanding requests. Fails, changing nothing,
    /// while a request is pending, where the shares are zero or more than
    /// have served the lock-in period, or the amount exceeds the equity.
    pub fn request_withdraw(
        &mut self,
        withdraw_amount: u64,
        vault_equity: u64,
        vault: &mut Vault,
        now: i64,
    ) -> (r: Result<(), ErrorCode>)
        requires
            old(self).wf(),
            old(vault).wf(),
            within(*old(self), *old(vault)),
        ensures
            r == request_withdraw_result(*old(self), *old(vault), withdraw_amount, vault_equity, now),
            r is Err ==> unchanged(*old(self), *final(self)) && *final(vault) == *old(vault),
            r is Ok ==> requested(
                *old(self),
                *final(self),
                amount_to_shares_result(withdraw_amount, old(vault).total_shares, vault_equity, old(vault).asset_decimals)->Ok_0,
                withdraw_amount,
                now,
            ),
            r is Ok ==> *final(vault) == (Vault {
                total_withdraw_requested: (old(vault).total_withdraw_requested
                    + withdraw_amount) as u64,
                ..*old(vault)
            }),
            final(self).wf(),
            final(vault).wf(),
            within(*final(self), *final(vault)),
    {
        if self.last_withdraw_request.value != 0 {
            return Err(ErrorCode::VaultWithdrawRequestInProgress);
        }
        let shares = match calculate_amount_to_shares(withdraw_amount, vault.total_shares, vault_equity, vault.asset_decimals) {
            Ok(shares) => shares,
            Err(e) => {
                return Err(e);
            },
        };
        if shares == 0 {
            return Err(ErrorCode::InvalidVaultWithdrawSize);
        }
        let withdrawable_shares = match self.calculate_withdrawable_shares(now, vault.lock_in_period) {
            Ok(w) => w,
            Err(e) => {
                return Err(e);
            },
        };
        proof {
            lemma_unlocked_at_most_all(self.deposits@, now, vault.lock_in_period);
        }
        if shares > withdrawable_shares {
            return Err(ErrorCode::InvalidVaultWithdrawSize);
        }
        if withdraw_amount > vault_equity {
            return Err(ErrorCode::InvalidVaultWithdrawSize);
        }
        if withdraw_amount > u64::MAX - vault.total_withdraw_requested {
            return Err(ErrorCode::Overflow);
        }
        proof {
            if withdraw_amount == 0 {
                assert(mul_div(0, vault.total_shares as int, vault_equity as int) == 0);
            }
        }
        let current_shares = self.vault_shares;
        match self.last_withdraw_request.set(current_shares, shares, withdraw_amount, vault_equity, now) {
            Ok(()) => {},
            Err(e) => {
                return Err(e);
            },
        }
        vault.total_withdraw_requested = vault.total_withdraw_requested + withdraw_amount;
        Ok(())
    }

    /// Cancels the request (back to Idle, stamped `now`) and takes its
    /// value off the vault's outstanding requests.
    pub fn cancel_withdraw_request(&mut self, vault: &mut Vault, now: i64) -> (r:
        Result<(), ErrorCode>)
        requires
            old(self).wf(),
            old(vault).wf(),
            within(*old(self), *old(vault)),
        ensures
            r is Ok,
            cancelled(*old(self), *final(self), now),
            *final(vault) == (Vault {
                total_withdraw_requested: (old(vault).total_withdraw_requested
                    - old(self).last_withdraw_request.value) as u64,
                ..*old(vault)
            }),
            final(self).wf(),
            final(vault).wf(),
            within(*final(self), *final(vault)),
    {
        vault.total_withdraw_requested = vault.total_withdraw_requested
            - self.last_withdraw_request.value;
        let _ = self.last_withdraw_request.reset(now);
        Ok(())
    }

    /// Redeems the pending request once the redeem period has passed:
    /// the reserved shares are valued at the current `vault_equity`, the
    /// management fee and the profit share are deducted, and the shares
    /// leave the depositor and the vault together. Returns the amount to
    /// pay out and the deductions. Fails, changing nothing, before the
    /// redeem period has passed or where no request is pending.
    pub fn withdraw(&mut self, vault_equity: u64, vault: &mut Vault, now: i64) -> (r: Result<
        (u64, u64),
        ErrorCode,
    >)
        requires
            old(self).wf(),
            old(vault).wf(),
            within(*old(self), *old(vault)),
        ensures
            r == withdraw_result(*old(self), *old(vault), vault_equity, now),
            r is Err ==> unchanged(*old(self), *final(self)) && *final(vault) == *old(vault),
            r is Ok ==> withdrawn(*old(self), *final(self), *old(vault), vault_equity, now),
            r is Ok ==> *final(vault) == vault_after_withdraw(*old(self), *old(vault), vault_equity),
            r matches Ok((net, deductions)) ==> deductions <= request_value(
                *old(self),
                *old(vault),
                vault_equity,
            ) && net + deductions == request_value(*old(self), *old(vault), vault_equity),
            final(self).wf(),
            final(vault).wf(),
            within(*final(self), *final(vault)),
    {
        match self.last_withdraw_request.check_redeem_period_finished(vault, now) {
            Ok(()) => {},
            Err(e) => {
                return Err(e);
            },
        }
        let shares = self.last_withdraw_request.shares;
        if shares == 0 {
            return Err(ErrorCode::InvalidVaultWithdraw);
        }
        let ghost d0 = *self;
        let ghost v0 = *vault;
        proof {
            crate::math::lemma_amount_for_shares_monotone(
                shares as int,
                self.vault_shares as int,
                vault.total_shares as int,
                vault_equity as int,
            );
        }
        let withdraw_amount = match Self::calculate_shares_to_amount(
            shares,
            vault.total_shares,
            vault_equity,
        ) {
            Ok(a) => a,
            Err(e) => {
                return Err(e);
            },
        };
        let management_fee = vault.calculate_fees(withdraw_amount);
        let after_fee = withdraw_amount - management_fee;
        proof {
            crate::math::lemma_profit_share_at_most_amount(
                position_value(d0, v0, vault_equity),
                self.net_deposits as int,
                vault.profit_share as int,
                after_fee as int,
            );
        }
        let profit_share = match self.calculate_profit_share(after_fee, vault_equity, vault) {
            Ok(p) => p,
            Err(e) => {
                return Err(e);
            },
        };
        let total_deductions = management_fee + profit_share;
        let net_amount = withdraw_amount - total_deductions;

        match self.remove_shares(shares) {
            Ok(()) => {},
            Err(e) => {
                return Err(e);
            },
        }
        proof {
            lemma_fifo_remove(d0.deposits@, shares as int);
        }
        self.profit_share_fee_paid = self.profit_share_fee_paid.saturating_add(profit_share);
        self.vault_shares = self.vault_shares - shares;
        self.total_withdraws = self.total_withdraws.saturating_add(net_amount);
        self.net_deposits = self.net_deposits.saturating_sub(net_amount);

        vault.manager_total_fee = vault.manager_total_fee.saturating_add(management_fee);
        vault.manager_total_profit_share = vault.manager_total_profit_share.saturating_add(
            profit_share,
        );
        vault.manager_total_net_fee = vault.manager_total_net_fee.saturating_add(total_deductions);
        vault.total_withdraws = vault.total_withdraws.saturating_add(net_amount);
        vault.net_deposits = vault.net_deposits.saturating_sub(net_amount);
        vault.total_shares = vault.total_shares - shares;
        vault.user_shares = vault.user_shares - shares;
        vault.total_withdraw_requested = vault.total_withdraw_requested
            - self.last_withdraw_request.value;
        let _ = self.last_withdraw_request.reset(now);
        Ok((net_amount, total_deductions))
    }
}

} // verus!
