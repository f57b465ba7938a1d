use vstd::prelude::*;
use crate::constants::{PERCENTAGE_PRECISION, SHARE_DECIMALS};
use crate::error::ErrorCode;
use crate::math::{
    amount_to_shares_result, calculate_amount_to_shares, management_fee_of,
};

verus! {

/// The pool aggregate: share totals, fee and lock parameters, capacity
/// limits and lifetime counters. Addresses are kept as 32 raw bytes.
pub struct Vault {
    /// The vault's name, zero padded.
    pub name: [u8; 32],
    /// The vault's own address.
    pub pubkey: [u8; 32],
    /// The manager, who may change the parameters and collect fees.
    pub manager: [u8; 32],
    /// The token account that receives deposits and pays withdrawals.
    pub token_account: [u8; 32],
    /// The venue's statistics account for the vault.
    pub user_stats: [u8; 32],
    /// The venue's account that holds the pool's positions.
    pub user: [u8; 32],
    /// The trading delegate at the venue.
    pub delegate: [u8; 32],
    /// The delegate that handles a liquidation.
    pub liquidation_delegate: [u8; 32],
    /// Sum of the shares of all depositors.
    pub user_shares: u128,
    /// All shares; the manager holds `total_shares - user_shares`.
    pub total_shares: u128,
    pub last_fee_update_ts: u64,
    pub liquidation_start_ts: u64,
    /// Seconds a deposit stays locked before its shares may be requested.
    pub lock_in_period: u64,
    /// Seconds between a withdrawal request and its redemption.
    pub redeem_period: u64,
    /// Sum of the values of all outstanding withdrawal requests.
    pub total_withdraw_requested: u64,
    /// Capacity: deposits are refused once equity would reach it (0: none).
    pub max_tokens: u64,
    /// Management fee, parts per million of the amount moved.
    pub management_fee: u64,
    pub init_ts: u64,
    pub net_deposits: u64,
    pub manager_net_deposits: u64,
    pub total_deposits: u64,
    pub total_withdraws: u64,
    pub manager_total_deposits: u64,
    pub manager_total_withdraws: u64,
    /// Management fees accrued over the vault's life.
    pub manager_total_fee: u64,
    /// Fees and profit shares accrued and not yet collected.
    pub manager_total_net_fee: u64,
    /// Profit shares accrued over the vault's life.
    pub manager_total_profit_share: u64,
    pub min_deposit_amount: u64,
    /// Decimal exponent of the share fields.
    pub shares_base: u32,
    /// Profit share, parts per million of a depositor's gain.
    pub profit_share: u32,
    pub hurdle_rate: u32,
    /// Market index of the settlement asset at the venue.
    pub spot_market_index: u16,
    /// Decimal places of the settlement asset.
    pub asset_decimals: u32,
    pub bump: u8,
    /// Whether only the manager may register depositors.
    pub permissioned: bool,
}

/// Whether a deposit of `amount` at `equity` would reach the capacity.
pub open spec fn at_capacity(max_tokens: u64, equity: u64, amount: u64) -> bool {
    max_tokens != 0 && max_tokens <= equity + amount
}

/// The vault after the manager deposited `amount` for `shares` new shares.
pub open spec fn after_manager_deposit(v: Vault, amount: u64, shares: u128) -> Vault {
    Vault {
        total_deposits: v.total_deposits.saturating_add(amount),
        manager_total_deposits: v.manager_total_deposits.saturating_add(amount),
        net_deposits: v.net_deposits.saturating_add(amount),
        manager_net_deposits: v.manager_net_deposits.saturating_add(amount),
        total_shares: (v.total_shares + shares) as u128,
        ..v
    }
}

/// The vault after the manager withdrew `amount` by redeeming `shares`.
pub open spec fn after_manager_withdraw(v: Vault, amount: u64, shares: u128) -> Vault {
    Vault {
        total_withdraws: v.total_withdraws.saturating_add(amount),
        manager_total_withdraws: v.manager_total_withdraws.saturating_add(amount),
        net_deposits: v.net_deposits.saturating_sub(amount),
        manager_net_deposits: v.manager_net_deposits.saturating_sub(amount),
        total_shares: (v.total_shares - shares) as u128,
        ..v
    }
}

/// What `Vault::manager_deposit` returns.
pub open spec fn manager_deposit_result(v: Vault, amount: u64, vault_equity: u64) -> Result<
    (),
    ErrorCode,
> {
    if at_capacity(v.max_tokens, vault_equity, amount) {
        Err(ErrorCode::VaultIsAtCapacity)
    } else {
        match amount_to_shares_result(amount, v.total_shares, vault_equity, v.asset_decimals) {
            Err(e) => Err(e),
            Ok(shares) => if v.total_shares + shares > u128::MAX {
                Err(ErrorCode::Overflow)
            } else {
                Ok(())
            },
        }
    }
}

/// What `Vault::manager_withdraw` returns.
pub open spec fn manager_withdraw_result(v: Vault, amount: u64, vault_equity: u64) -> Result<
    (),
    ErrorCode,
> {
    match amount_to_shares_result(amount, v.total_shares, vault_equity, v.asset_decimals) {
        Err(e) => Err(e),
        Ok(shares) => if shares == 0 {
            Err(ErrorCode::InvalidVaultWithdrawSize)
        } else if v.manager_shares() < shares {
            Err(ErrorCode::InsufficientVaultShares)
        } else {
            Ok(())
        },
    }
}

impl Vault {
    /// The vault's invariant: the depositors' shares are part of all
    /// shares, fees stay below 100%, and the asset has no more decimals
    /// than a share.
    pub open spec fn wf(&self) -> bool {
        &&& self.user_shares <= self.total_shares
        &&& self.management_fee < PERCENTAGE_PRECISION
        &&& self.profit_share < PERCENTAGE_PRECISION
        &&& self.asset_decimals <= SHARE_DECIMALS
    }

    /// Shares held by the manager.
    pub open spec fn manager_shares(&self) -> int {
        self.total_shares - self.user_shares
    }

    /// The manager's shares: all shares less the depositors'.
    pub fn get_manager_shares(&self) -> (r: u128)
        ensures
            r == self.total_shares.saturating_sub(self.user_shares),
            self.wf() ==> r == self.manager_shares(),
    {
        self.total_shares.saturating_sub(self.user_shares)
    }

    /// Management fee on `amount`, rounded up in the pool's favour; never
    /// more than `amount`.
    pub fn calculate_fees(&self, amount: u64) -> (r: u64)
        requires
            self.management_fee <= PERCENTAGE_PRECISION,
        ensures
            r == management_fee_of(amount as int, self.management_fee as int),
            r <= amount,
    {
        let fee = self.management_fee as u128;
        proof {
            assert(amount * fee <= amount * PERCENTAGE_PRECISION) by (nonlinear_arith)
                requires fee <= PERCENTAGE_PRECISION;
            assert((amount * fee + (PERCENTAGE_PRECISION - 1)) / (PERCENTAGE_PRECISION as int)
                <= amount) by (nonlinear_arith)
                requires amount * fee <= amount * PERCENTAGE_PRECISION;
        }
        let numerator: u128 = amount as u128 * fee + (PERCENTAGE_PRECISION as u128 - 1);
        (numerator / PERCENTAGE_PRECISION as u128) as u64
    }

    /// The manager adds `amount` to the pool, at `vault_equity` before the
    /// deposit, for new shares; no management fee is charged. Fails,
    /// changing nothing, where the deposit would reach the capacity, where
    /// the shares cannot be computed, or where they overflow the total.
    pub fn manager_deposit(&mut self, amount: u64, vault_equity: u64) -> (r: Result<
        (),
        ErrorCode,
    >)
        requires
            old(self).wf(),
        ensures
            r == manager_deposit_result(*old(self), amount, vault_equity),
            r is Err ==> *final(self) == *old(self),
            r is Ok ==> *final(self) == after_manager_deposit(
                *old(self),
                amount,
                amount_to_shares_result(amount, old(self).total_shares, vault_equity, old(self).asset_decimals)->Ok_0,
            ),
            final(self).wf(),
    {
        if self.max_tokens != 0 && self.max_tokens as u128 <= vault_equity as u128 + amount as u128 {
            return Err(ErrorCode::VaultIsAtCapacity);
        }
        let new_shares = match calculate_amount_to_shares(amount, self.total_shares, vault_equity, self.asset_decimals) {
            Ok(s) => s,
            Err(e) => {
                return Err(e);
            },
        };
        if new_shares > u128::MAX - self.total_shares {
            return Err(ErrorCode::Overflow);
        }
        self.total_deposits = self.total_deposits.saturating_add(amount);
        self.manager_total_deposits = self.manager_total_deposits.saturating_add(amount);
        self.net_deposits = self.net_deposits.saturating_add(amount);
        self.manager_net_deposits = self.manager_net_deposits.saturating_add(amount);
        self.total_shares = self.total_shares + new_shares;
        Ok(())
    }

    /// The manager takes `amount` out of the pool, at `vault_equity`, by
    /// redeeming the shares it is worth; no fee is charged. Fails, changing
    /// nothing, where the shares cannot be computed, are zero, or exceed
    /// the manager's.
    pub fn manager_withdraw(&mut self, amount: u64, vault_equity: u64) -> (r: Result<
        (),
        ErrorCode,
    >)
        requires
            old(self).wf(),
        ensures
            r == manager_withdraw_result(*old(self), amount, vault_equity),
            r is Err ==> *final(self) == *old(self),
            r is Ok ==> *final(self) == after_manager_withdraw(
                *old(self),
                amount,
                amount_to_shares_result(amount, old(self).total_shares, vault_equity, old(self).asset_decimals)->Ok_0,
            ),
            final(self).wf(),
    {
        let shares = match calculate_amount_to_shares(amount, self.total_shares, vault_equity, self.asset_decimals) {
            Ok(s) => s,
            Err(e) => {
                return Err(e);
            },
        };
        if shares == 0 {
            return Err(ErrorCode::InvalidVaultWithdrawSize);
        }
        if self.get_manager_shares() < shares {
            return Err(ErrorCode::InsufficientVaultShares);
        }
        self.total_withdraws = self.total_withdraws.saturating_add(amount);
        self.manager_total_withdraws = self.manager_total_withdraws.saturating_add(amount);
        self.net_deposits = self.net_deposits.saturating_sub(amount);
        self.manager_net_deposits = self.manager_net_deposits.saturating_sub(amount);
        self.total_shares = self.total_shares - shares;
        Ok(())
    }

    /// Checks the vault's invariant.
    pub fn is_valid(&self) -> (r: bool)
        ensures
            r == self.wf(),
    {
        self.user_shares <= self.total_shares && self.management_fee < PERCENTAGE_PRECISION
            && (self.profit_share as u64) < PERCENTAGE_PRECISION
            && self.asset_decimals <= SHARE_DECIMALS
    }

    /// Pays `amount` of the accrued, uncollected fees out to the manager.
    /// Fails, changing nothing, where `amount` exceeds them.
    pub fn manager_collect_fees(&mut self, amount: u64) -> (r: Result<(), ErrorCode>)
        ensures
            r is Err <==> amount > old(self).manager_total_net_fee,
            r is Err ==> r == Err::<(), ErrorCode>(ErrorCode::InsufficientFees) && *final(self)
                == *old(self),
            r is Ok ==> *final(self) == (Vault {
                manager_total_net_fee: (old(self).manager_total_net_fee - amount) as u64,
                ..*old(self)
            }),
    {
        if amount > self.manager_total_net_fee {
            return Err(ErrorCode::InsufficientFees);
        }
        self.manager_total_net_fee = self.manager_total_net_fee - amount;
        Ok(())
    }

    /// The pool's equity in the settlement asset, from the venue's
    /// valuation of the positions (`vault_equity`, in the venue's quote
    /// precision), the flag that all price feeds behind it were valid, the
    /// asset's precision and its oracle price. Fails on an invalid feed or
    /// a negative valuation, and where the arithmetic fails.
    pub fn calculate_total_equity(
        &self,
        vault_equity: i128,
        all_oracles_valid: bool,
        spot_market_precision: u128,
        oracle_price: i64,
    ) -> (r: Result<u64, ErrorCode>)
        ensures
            !all_oracles_valid ==> r == Err::<u64, ErrorCode>(ErrorCode::InvalidOracle),
            all_oracles_valid && vault_equity < 0 ==> r == Err::<u64, ErrorCode>(
                ErrorCode::InvalidOracle,
            ),
            all_oracles_valid && vault_equity >= 0 ==> (r matches Ok(v) <==> (oracle_price > 0
                && spot_market_precision <= i128::MAX && vault_equity * spot_market_precision
                <= i128::MAX && (vault_equity * spot_market_precision) / (oracle_price as int)
                <= u64::MAX)),
            r matches Ok(v) ==> v == (vault_equity * spot_market_precision) / (oracle_price as int),
            r matches Err(e) ==> e == ErrorCode::InvalidOracle || e == ErrorCode::MathError,
    {
        if !all_oracles_valid {
            return Err(ErrorCode::InvalidOracle);
        }
        if vault_equity < 0 {
            return Err(ErrorCode::InvalidOracle);
        }
        if oracle_price <= 0 || spot_market_precision > i128::MAX as u128 {
            return Err(ErrorCode::MathError);
        }
        let equity = vault_equity as u128;
        let price = oracle_price as u64;
        // the product must fit in an i128, as the venue computes it
        if spot_market_precision != 0 && equity > (i128::MAX as u128) / spot_market_precision {
            proof {
                assert(vault_equity * spot_market_precision > i128::MAX) by (nonlinear_arith)
                    requires
                        spot_market_precision > 0,
                        equity > (i128::MAX as int) / (spot_market_precision as int),
                        equity == vault_equity;
            }
            return Err(ErrorCode::MathError);
        }
        proof {
            assert(vault_equity * spot_market_precision <= i128::MAX) by (nonlinear_arith)
                requires
                    spot_market_precision == 0 || equity <= (i128::MAX as int) / (
                    spot_market_precision as int),
                    equity == vault_equity,
                    equity >= 0;
        }
        let value: u128 = equity * spot_market_precision / price as u128;
        if value > u64::MAX as u128 {
            return Err(ErrorCode::MathError);
        }
        Ok(value as u64)
    }
}

} // verus!
