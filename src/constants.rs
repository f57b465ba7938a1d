use vstd::prelude::*;

verus! {

/// One hour, in seconds.
pub const ONE_HOUR: i64 = 3600;

/// One day, in seconds.
pub const ONE_DAY: i64 = 86400;

/// Fee and profit-share parameters are parts per million of this.
pub const PERCENTAGE_PRECISION: u64 = 1_000_000;

/// One unit of the settlement asset (6 decimals).
pub const DECIMALS_USDC: u128 = 1_000_000;

/// One share (18 decimals).
pub const DECIMALS_SHARES: u128 = 1_000_000_000_000_000_000;

/// Decimal places of a share.
pub const SHARE_DECIMALS: u32 = 18;

/// Address of the trading venue's program, in base 58.
pub const DRIFT_PROGRAM_ID: &'static str = "dRiftyHA39MWEi3m9aunc5MzRF1JYuBsbn6VPcn33UH";

} // verus!
