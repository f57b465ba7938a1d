use vstd::prelude::*;
use crate::error::ErrorCode;
use crate::math::{
    amount_for_shares, amount_to_shares_result, lemma_management_fee_at_most_amount,
    lemma_profit_share_at_most_amount, management_fee_of, mul_div, profit_share_of,
};
use crate::vault::{
    after_manager_deposit, after_manager_withdraw, manager_deposit_result, manager_withdraw_result,
    Vault,
};
use crate::vault_depositor::{
    cancelled, deposit_result, deposited, position_value, request_value, request_withdraw_result,
    requested, shares_to_amount_result, vault_after_deposit, vault_after_withdraw, withdraw_fee,
    withdraw_deductions, withdraw_net, withdraw_profit_share, withdraw_result, withdrawn, within,
    VaultDepositor,
};

verus! {

/// Shares held by a list of depositors.
pub open spec fn depositor_shares_sum(ds: Seq<VaultDepositor>) -> int
    decreases ds.len(),
{
    if ds.len() == 0 {
        0
    } else {
        depositor_shares_sum(ds.drop_last()) + ds.last().vault_shares
    }
}

/// Values of the pending requests of a list of depositors.
pub open spec fn pending_sum(ds: Seq<VaultDepositor>) -> int
    decreases ds.len(),
{
    if ds.len() == 0 {
        0
    } else {
        pending_sum(ds.drop_last()) + ds.last().last_withdraw_request.value
    }
}

/// The share ledger of a vault balances: all shares are the depositors'
/// and the manager's, the depositors' shares add up to the vault's user
/// shares, and the values of their pending requests add up to the vault's
/// outstanding requests.
pub open spec fn balanced(v: Vault, ds: Seq<VaultDepositor>) -> bool {
    &&& v.wf()
    &&& v.total_shares == v.user_shares + v.manager_shares()
    &&& v.user_shares == depositor_shares_sum(ds)
    &&& v.total_withdraw_requested == pending_sum(ds)
}

proof fn lemma_sum_update(ds: Seq<VaultDepositor>, i: int, d: VaultDepositor)
    requires
        0 <= i < ds.len(),
    ensures
        depositor_shares_sum(ds.update(i, d)) == depositor_shares_sum(ds) - ds[i].vault_shares
            + d.vault_shares,
        pending_sum(ds.update(i, d)) == pending_sum(ds) - ds[i].last_withdraw_request.value
            + d.last_withdraw_request.value,
    decreases ds.len(),
{
    if i < ds.len() - 1 {
        lemma_sum_update(ds.drop_last(), i, d);
        assert(ds.update(i, d).drop_last() =~= ds.drop_last().update(i, d));
    } else {
        assert(ds.update(i, d).drop_last() =~= ds.drop_last());
    }
}

/// In a balanced ledger each depositor lies within the vault's totals:
/// what the depositor operations require of their arguments.
pub proof fn lemma_depositor_within_vault(v: Vault, ds: Seq<VaultDepositor>, i: int)
    requires
        balanced(v, ds),
        0 <= i < ds.len(),
    ensures
        within(ds[i], v),
    decreases ds.len(),
{
    lemma_member_at_most_sum(ds, i);
}

proof fn lemma_member_at_most_sum(ds: Seq<VaultDepositor>, i: int)
    requires
        0 <= i < ds.len(),
    ensures
        0 <= ds[i].vault_shares <= depositor_shares_sum(ds),
        0 <= ds[i].last_withdraw_request.value <= pending_sum(ds),
    decreases ds.len(),
{
    lemma_sum_nonneg(ds.drop_last());
    if i < ds.len() - 1 {
        lemma_member_at_most_sum(ds.drop_last(), i);
    }
}

proof fn lemma_sum_nonneg(ds: Seq<VaultDepositor>)
    ensures
        depositor_shares_sum(ds) >= 0,
        pending_sum(ds) >= 0,
    decreases ds.len(),
{
    if ds.len() > 0 {
        lemma_sum_nonneg(ds.drop_last());
    }
}

/// A successful deposit of `amount` at `vault_equity` took the depositor
/// `d0` to `d1` and the vault `v0` to `v1`, as `VaultDepositor::deposit`
/// states.
pub open spec fn deposit_step(
    v0: Vault,
    d0: VaultDepositor,
    amount: u64,
    vault_equity: u64,
    now: i64,
    d1: VaultDepositor,
    v1: Vault,
) -> bool {
    &&& deposit_result(v0, amount, vault_equity) is Ok
    &&& {
        let (net, fee) = deposit_result(v0, amount, vault_equity)->Ok_0;
        let shares = amount_to_shares_result(net, v0.total_shares, vault_equity, v0.asset_decimals)->Ok_0;
        deposited(d0, d1, net, shares, now) && v1 == vault_after_deposit(v0, net, fee, shares)
    }
}

/// A successful redemption at `vault_equity` took the depositor `d0` to
/// `d1` and the vault `v0` to `v1`, as `VaultDepositor::withdraw` states.
pub open spec fn withdraw_step(
    v0: Vault,
    d0: VaultDepositor,
    vault_equity: u64,
    now: i64,
    d1: VaultDepositor,
    v1: Vault,
) -> bool {
    &&& d0.wf()
    &&& withdraw_result(d0, v0, vault_equity, now) is Ok
    &&& withdrawn(d0, d1, v0, vault_equity, now)
    &&& v1 == vault_after_withdraw(d0, v0, vault_equity)
}

/// A deposit by the depositor `ds[i]` keeps the ledger balanced: the
/// shares it issues go to the depositor and to the vault's totals alike.
pub proof fn lemma_deposit_conserves_shares(
    v0: Vault,
    ds: Seq<VaultDepositor>,
    i: int,
    amount: u64,
    vault_equity: u64,
    now: i64,
    d1: VaultDepositor,
    v1: Vault,
)
    requires
        balanced(v0, ds),
        0 <= i < ds.len(),
        deposit_step(v0, ds[i], amount, vault_equity, now, d1, v1),
    ensures
        balanced(v1, ds.update(i, d1)),
{
    lemma_sum_update(ds, i, d1);
}

/// A withdrawal by the depositor `ds[i]` keeps the ledger balanced: the
/// redeemed shares leave the depositor and the vault's totals alike.
pub proof fn lemma_withdraw_conserves_shares(
    v0: Vault,
    ds: Seq<VaultDepositor>,
    i: int,
    vault_equity: u64,
    now: i64,
    d1: VaultDepositor,
    v1: Vault,
)
    requires
        balanced(v0, ds),
        0 <= i < ds.len(),
        withdraw_step(v0, ds[i], vault_equity, now, d1, v1),
    ensures
        balanced(v1, ds.update(i, d1)),
{
    lemma_member_at_most_sum(ds, i);
    lemma_sum_update(ds, i, d1);
}

/// A withdrawal request or its cancellation moves no shares, and changes
/// the outstanding requests by the change in the depositor's request, so
/// the ledger stays balanced.
pub proof fn lemma_requests_conserve_shares(
    v0: Vault,
    ds: Seq<VaultDepositor>,
    i: int,
    d1: VaultDepositor,
    v1: Vault,
)
    requires
        balanced(v0, ds),
        0 <= i < ds.len(),
        d1.vault_shares == ds[i].vault_shares,
        v1 == (Vault { total_withdraw_requested: v1.total_withdraw_requested, ..v0 }),
        v1.total_withdraw_requested == v0.total_withdraw_requested
            - ds[i].last_withdraw_request.value + d1.last_withdraw_request.value,
    ensures
        balanced(v1, ds.update(i, d1)),
{
    lemma_sum_update(ds, i, d1);
}

/// A deposit by the manager changes only the manager's shares: the
/// ledger stays balanced.
pub proof fn lemma_manager_deposit_conserves_shares(
    v0: Vault,
    ds: Seq<VaultDepositor>,
    amount: u64,
    vault_equity: u64,
    v1: Vault,
)
    requires
        balanced(v0, ds),
        manager_deposit_result(v0, amount, vault_equity) is Ok,
        v1 == after_manager_deposit(
            v0,
            amount,
            amount_to_shares_result(amount, v0.total_shares, vault_equity, v0.asset_decimals)->Ok_0,
        ),
    ensures
        balanced(v1, ds),
        v1.user_shares == v0.user_shares,
{
}

/// A withdrawal by the manager changes only the manager's shares: the
/// ledger stays balanced.
pub proof fn lemma_manager_withdraw_conserves_shares(
    v0: Vault,
    ds: Seq<VaultDepositor>,
    amount: u64,
    vault_equity: u64,
    v1: Vault,
)
    requires
        balanced(v0, ds),
        manager_withdraw_result(v0, amount, vault_equity) is Ok,
        v1 == after_manager_withdraw(
            v0,
            amount,
            amount_to_shares_result(amount, v0.total_shares, vault_equity, v0.asset_decimals)->Ok_0,
        ),
    ensures
        balanced(v1, ds),
        v1.user_shares == v0.user_shares,
{
}

/// One operation took the ledger from `(v0, ds0)` to `(v1, ds1)`: a
/// deposit, a redemption, a withdrawal request or its cancellation by one
/// of the depositors, a deposit or withdrawal by the manager, or a failed
/// operation, which changes nothing.
pub open spec fn one_operation(
    v0: Vault,
    ds0: Seq<VaultDepositor>,
    v1: Vault,
    ds1: Seq<VaultDepositor>,
) -> bool {
    ||| exists|i: int, amount: u64, vault_equity: u64, now: i64, d1: VaultDepositor|
        #![trigger ds0.update(i, d1), deposit_step(v0, ds0[i], amount, vault_equity, now, d1, v1)]
        0 <= i < ds0.len() && ds1 == ds0.update(i, d1) && deposit_step(
            v0,
            ds0[i],
            amount,
            vault_equity,
            now,
            d1,
            v1,
        )
    ||| exists|i: int, vault_equity: u64, now: i64, d1: VaultDepositor|
        #![trigger ds0.update(i, d1), withdraw_step(v0, ds0[i], vault_equity, now, d1, v1)]
        0 <= i < ds0.len() && ds1 == ds0.update(i, d1) && withdraw_step(
            v0,
            ds0[i],
            vault_equity,
            now,
            d1,
            v1,
        )
    ||| exists|i: int, d1: VaultDepositor|
        #![trigger ds0.update(i, d1)]
        0 <= i < ds0.len() && ds1 == ds0.update(i, d1) && d1.vault_shares == ds0[i].vault_shares
            && v1 == (Vault { total_withdraw_requested: v1.total_withdraw_requested, ..v0 })
            && v1.total_withdraw_requested == v0.total_withdraw_requested
            - ds0[i].last_withdraw_request.value + d1.last_withdraw_request.value
    ||| exists|amount: u64, vault_equity: u64|
        #![trigger manager_deposit_result(v0, amount, vault_equity)]
        ds1 == ds0 && manager_deposit_result(v0, amount, vault_equity) is Ok && v1
            == after_manager_deposit(
            v0,
            amount,
            amount_to_shares_result(amount, v0.total_shares, vault_equity, v0.asset_decimals)->Ok_0,
        )
    ||| exists|amount: u64, vault_equity: u64|
        #![trigger manager_withdraw_result(v0, amount, vault_equity)]
        ds1 == ds0 && manager_withdraw_result(v0, amount, vault_equity) is Ok && v1
            == after_manager_withdraw(
            v0,
            amount,
            amount_to_shares_result(amount, v0.total_shares, vault_equity, v0.asset_decimals)->Ok_0,
        )
    ||| v1 == v0 && ds1 == ds0
}

proof fn lemma_one_operation_conserves(
    v0: Vault,
    ds0: Seq<VaultDepositor>,
    v1: Vault,
    ds1: Seq<VaultDepositor>,
)
    requires
        balanced(v0, ds0),
        one_operation(v0, ds0, v1, ds1),
    ensures
        balanced(v1, ds1),
{
    if exists|i: int, amount: u64, vault_equity: u64, now: i64, d1: VaultDepositor|
        #![trigger ds0.update(i, d1), deposit_step(v0, ds0[i], amount, vault_equity, now, d1, v1)]
        0 <= i < ds0.len() && ds1 == ds0.update(i, d1) && deposit_step(
            v0,
            ds0[i],
            amount,
            vault_equity,
            now,
            d1,
            v1,
        ) {
        let (i, amount, vault_equity, now, d1) = choose|
            i: int,
            amount: u64,
            vault_equity: u64,
            now: i64,
            d1: VaultDepositor,
        |
            #![trigger ds0.update(i, d1), deposit_step(v0, ds0[i], amount, vault_equity, now, d1, v1)]
            0 <= i < ds0.len() && ds1 == ds0.update(i, d1) && deposit_step(
                v0,
                ds0[i],
                amount,
                vault_equity,
                now,
                d1,
                v1,
            );
        lemma_deposit_conserves_shares(v0, ds0, i, amount, vault_equity, now, d1, v1);
    } else if exists|i: int, vault_equity: u64, now: i64, d1: VaultDepositor|
        #![trigger ds0.update(i, d1), withdraw_step(v0, ds0[i], vault_equity, now, d1, v1)]
        0 <= i < ds0.len() && ds1 == ds0.update(i, d1) && withdraw_step(
            v0,
            ds0[i],
            vault_equity,
            now,
            d1,
            v1,
        ) {
        let (i, vault_equity, now, d1) = choose|i: int, vault_equity: u64, now: i64, d1: VaultDepositor|
            #![trigger ds0.update(i, d1), withdraw_step(v0, ds0[i], vault_equity, now, d1, v1)]
            0 <= i < ds0.len() && ds1 == ds0.update(i, d1) && withdraw_step(
                v0,
                ds0[i],
                vault_equity,
                now,
                d1,
                v1,
            );
        lemma_withdraw_conserves_shares(v0, ds0, i, vault_equity, now, d1, v1);
    } else if exists|i: int, d1: VaultDepositor|
        #![trigger ds0.update(i, d1)]
        0 <= i < ds0.len() && ds1 == ds0.update(i, d1) && d1.vault_shares == ds0[i].vault_shares
            && v1 == (Vault { total_withdraw_requested: v1.total_withdraw_requested, ..v0 })
            && v1.total_withdraw_requested == v0.total_withdraw_requested
            - ds0[i].last_withdraw_request.value + d1.last_withdraw_request.value {
        let (i, d1) = choose|i: int, d1: VaultDepositor|
            #![trigger ds0.update(i, d1)]
            0 <= i < ds0.len() && ds1 == ds0.update(i, d1) && d1.vault_shares
                == ds0[i].vault_shares && v1 == (Vault {
                total_withdraw_requested: v1.total_withdraw_requested,
                ..v0
            }) && v1.total_withdraw_requested == v0.total_withdraw_requested
                - ds0[i].last_withdraw_request.value + d1.last_withdraw_request.value;
        lemma_requests_conserve_shares(v0, ds0, i, d1, v1);
    }
}

/// Conservation: over any sequence of operations from a balanced ledger,
/// every ledger reached is balanced, so all shares stay the depositors'
/// and the manager's, and the depositors' shares add up to the vault's
/// user shares.
pub proof fn lemma_conservation(ledgers: Seq<(Vault, Seq<VaultDepositor>)>)
    requires
        ledgers.len() > 0,
        balanced(ledgers[0].0, ledgers[0].1),
        forall|k: int|
            0 <= k < ledgers.len() - 1 ==> #[trigger] one_operation(
                ledgers[k].0,
                ledgers[k].1,
                ledgers[k + 1].0,
                ledgers[k + 1].1,
            ),
    ensures
        forall|k: int| 0 <= k < ledgers.len() ==> #[trigger] balanced(ledgers[k].0, ledgers[k].1),
    decreases ledgers.len(),
{
    if ledgers.len() > 1 {
        let prefix = ledgers.drop_last();
        assert forall|k: int| 0 <= k < prefix.len() - 1 implies #[trigger] one_operation(
            prefix[k].0,
            prefix[k].1,
            prefix[k + 1].0,
            prefix[k + 1].1,
        ) by {
            assert(one_operation(ledgers[k].0, ledgers[k].1, ledgers[k + 1].0, ledgers[k + 1].1));
        }
        lemma_conservation(prefix);
        let last = ledgers.len() - 1;
        let k = last - 1;
        assert(balanced(prefix[k].0, prefix[k].1));
        assert(one_operation(ledgers[k].0, ledgers[k].1, ledgers[k + 1].0, ledgers[k + 1].1));
        lemma_one_operation_conserves(
            ledgers[k].0,
            ledgers[k].1,
            ledgers[k + 1].0,
            ledgers[k + 1].1,
        );
        assert forall|k: int| 0 <= k < ledgers.len() implies #[trigger] balanced(
            ledgers[k].0,
            ledgers[k].1,
        ) by {
            if k < last {
                assert(balanced(prefix[k].0, prefix[k].1));
            }
        }
    }
}

/// Shares bought with `amount` and sold back at the same equity never
/// return more than `amount`: both conversions round down.
pub proof fn lemma_no_dilution(amount: u64, total_shares: u128, equity: u64, asset_decimals: u32)
    requires
        amount_to_shares_result(amount, total_shares, equity, asset_decimals) is Ok,
    ensures
        shares_to_amount_result(
            amount_to_shares_result(amount, total_shares, equity, asset_decimals)->Ok_0,
            total_shares,
            equity,
        ) matches Ok(a) ==> a <= amount,
{
    let s = amount_to_shares_result(amount, total_shares, equity, asset_decimals)->Ok_0;
    if total_shares > 0 && s <= total_shares {
        let t = total_shares as int;
        let e = equity as int;
        let a = amount as int;
        assert(s == (a * t) / e);
        assert(s * e <= a * t) by (nonlinear_arith)
            requires
                s == (a * t) / e,
                e > 0,
        {
            vstd::arithmetic::div_mod::lemma_fundamental_div_mod(a * t, e);
            vstd::arithmetic::div_mod::lemma_mod_pos_bound(a * t, e);
        }
        assert((s * e) / t <= a) by (nonlinear_arith)
            requires
                s * e <= a * t,
                t > 0,
        {
            vstd::arithmetic::div_mod::lemma_multiply_divide_le(s * e, t, a);
        }
        assert(mul_div(s as int, e, t) <= a);
        assert(amount_for_shares(s as int, t, e) <= a);
    }
}

/// No fee exceeds the amount it is charged on, at fees below 100%: the
/// management fee on any amount; and on a redemption, the management fee,
/// the profit share and the two together stay within the value of the
/// redeemed shares, which is exactly the payout plus the deductions.
pub proof fn lemma_fees_within_principal(d: VaultDepositor, v: Vault, vault_equity: u64, amount: u64)
    requires
        v.wf(),
        d.wf(),
        d.vault_shares <= v.user_shares,
    ensures
        management_fee_of(amount as int, v.management_fee as int) <= amount,
        withdraw_fee(d, v, vault_equity) <= request_value(d, v, vault_equity),
        withdraw_profit_share(d, v, vault_equity) <= request_value(d, v, vault_equity),
        withdraw_deductions(d, v, vault_equity) <= request_value(d, v, vault_equity),
        withdraw_net(d, v, vault_equity) + withdraw_deductions(d, v, vault_equity)
            == request_value(d, v, vault_equity),
{
    lemma_management_fee_at_most_amount(amount as int, v.management_fee as int);
    crate::math::lemma_amount_for_shares_monotone(
        d.last_withdraw_request.shares as int,
        d.vault_shares as int,
        v.total_shares as int,
        vault_equity as int,
    );
    lemma_management_fee_at_most_amount(
        request_value(d, v, vault_equity),
        v.management_fee as int,
    );
    lemma_profit_share_at_most_amount(
        position_value(d, v, vault_equity),
        d.net_deposits as int,
        v.profit_share as int,
        request_value(d, v, vault_equity) - withdraw_fee(d, v, vault_equity),
    );
}

/// A withdrawal without a pending request, or before the redeem period
/// has passed since the request, fails with a protocol-state error.
pub proof fn lemma_withdraw_needs_ripe_request(
    d: VaultDepositor,
    v: Vault,
    vault_equity: u64,
    now: i64,
)
    requires
        d.wf(),
        !d.last_withdraw_request.is_pending() || !d.last_withdraw_request.redeem_period_finished(
            v.redeem_period,
            now,
        ),
    ensures
        withdraw_result(d, v, vault_equity, now) == Err::<(u64, u64), ErrorCode>(
            ErrorCode::CannotWithdrawBeforeRedeemPeriodEnd,
        ) || withdraw_result(d, v, vault_equity, now) == Err::<(u64, u64), ErrorCode>(
            ErrorCode::InvalidVaultWithdraw,
        ),
{
}

/// A request followed by its cancellation leaves the request Idle and the
/// vault as it was, outstanding requests included.
pub proof fn lemma_cancel_restores(
    d0: VaultDepositor,
    v0: Vault,
    withdraw_amount: u64,
    vault_equity: u64,
    requested_at: i64,
    d1: VaultDepositor,
    v1: Vault,
    cancelled_at: i64,
    d2: VaultDepositor,
    v2: Vault,
)
    requires
        request_withdraw_result(d0, v0, withdraw_amount, vault_equity, requested_at) is Ok,
        requested(
            d0,
            d1,
            amount_to_shares_result(withdraw_amount, v0.total_shares, vault_equity, v0.asset_decimals)->Ok_0,
            withdraw_amount,
            requested_at,
        ),
        v1 == (Vault {
            total_withdraw_requested: (v0.total_withdraw_requested + withdraw_amount) as u64,
            ..v0
        }),
        cancelled(d1, d2, cancelled_at),
        v2 == (Vault {
            total_withdraw_requested: (v1.total_withdraw_requested
                - d1.last_withdraw_request.value) as u64,
            ..v1
        }),
    ensures
        v2 == v0,
        !d2.last_withdraw_request.is_pending(),
        d2.vault_shares == d0.vault_shares,
{
}

/// No profit share is charged on a position that is not in gain.
pub proof fn lemma_no_profit_share_at_loss(
    total_value: int,
    net_deposits: int,
    profit_share: int,
    amount: int,
)
    requires
        total_value <= net_deposits,
    ensures
        profit_share_of(total_value, net_deposits, profit_share, amount) == 0,
{
}

/// Redeeming a request from a position worth no more than its net
/// deposits charges no profit share.
pub proof fn lemma_no_profit_share_on_losing_position(d: VaultDepositor, v: Vault, vault_equity: u64)
    requires
        position_value(d, v, vault_equity) <= d.net_deposits,
    ensures
        withdraw_profit_share(d, v, vault_equity) == 0,
{
}

} // verus!
