use vstd::prelude::*;
use crate::error::ErrorCode;
use crate::vault::Vault;

verus! {

/// A depositor's withdrawal intent: Idle while `value == 0`, Pending
/// otherwise.
#[derive(Clone, Copy, Debug, PartialEq, Eq, Structural)]
pub struct WithdrawRequest {
    /// Shares reserved by the request.
    pub shares: u128,
    /// Asset value of the shares when the request was made.
    pub value: u64,
    /// When the request was made, or last reset.
    pub ts: i64,
}

impl WithdrawRequest {
    /// A request is pending while it holds a value.
    pub open spec fn is_pending(&self) -> bool {
        self.value != 0
    }

    /// Idle request, last changed at `now`.
    pub open spec fn idle(now: i64) -> WithdrawRequest {
        WithdrawRequest { shares: 0, value: 0, ts: now }
    }

    /// Whether a request for `withdraw_shares` out of `current_shares`,
    /// worth `withdraw_amount` at `vault_equity`, may be recorded.
    pub open spec fn set_result(
        &self,
        current_shares: u128,
        withdraw_shares: u128,
        withdraw_amount: u64,
        vault_equity: u64,
    ) -> Result<(), ErrorCode> {
        if self.value != 0 {
            Err(ErrorCode::VaultWithdrawRequestInProgress)
        } else if withdraw_shares > current_shares {
            Err(ErrorCode::InvalidVaultWithdrawSize)
        } else if withdraw_amount != 0 && withdraw_amount > vault_equity {
            Err(ErrorCode::InvalidVaultWithdrawSize)
        } else {
            Ok(())
        }
    }

    /// Records a request (Idle to Pending). Fails, changing nothing, while
    /// another request is pending, or where the shares exceed
    /// `current_shares` or the amount exceeds the equity.
    pub fn set(
        &mut self,
        current_shares: u128,
        withdraw_shares: u128,
        withdraw_amount: u64,
        vault_equity: u64,
        now: i64,
    ) -> (r: Result<(), ErrorCode>)
        ensures
            r == old(self).set_result(current_shares, withdraw_shares, withdraw_amount, vault_equity),
            r is Ok ==> *final(self) == (WithdrawRequest {
                shares: withdraw_shares,
                value: withdraw_amount,
                ts: now,
            }),
            r is Err ==> *final(self) == *old(self),
    {
        if self.value != 0 {
            return Err(ErrorCode::VaultWithdrawRequestInProgress);
        }
        if withdraw_shares > current_shares {
            return Err(ErrorCode::InvalidVaultWithdrawSize);
        }
        if withdraw_amount != 0 && withdraw_amount > vault_equity {
            return Err(ErrorCode::InvalidVaultWithdrawSize);
        }
        self.shares = withdraw_shares;
        self.value = withdraw_amount;
        self.ts = now;
        Ok(())
    }

    /// Returns the request to Idle, stamped `now`.
    pub fn reset(&mut self, now: i64) -> (r: Result<(), ErrorCode>)
        ensures
            r is Ok,
            *final(self) == WithdrawRequest::idle(now),
    {
        self.shares = 0;
        self.value = 0;
        self.ts = now;
        Ok(())
    }

    /// Whether the redeem period has run out at `now`.
    pub open spec fn redeem_period_finished(&self, redeem_period: u64, now: i64) -> bool {
        now - self.ts >= redeem_period
    }

    /// Succeeds once `vault.redeem_period` seconds have passed since the
    /// request was made.
    pub fn check_redeem_period_finished(&self, vault: &Vault, now: i64) -> (r: Result<
        (),
        ErrorCode,
    >)
        ensures
            r is Ok <==> self.redeem_period_finished(vault.redeem_period, now),
            r is Err ==> r == Err::<(), ErrorCode>(ErrorCode::CannotWithdrawBeforeRedeemPeriodEnd),
    {
        let elapsed: i128 = now as i128 - self.ts as i128;
        if elapsed >= vault.redeem_period as i128 {
            Ok(())
        } else {
            Err(ErrorCode::CannotWithdrawBeforeRedeemPeriodEnd)
        }
    }
}

} // verus!
