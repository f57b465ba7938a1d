use vstd::prelude::*;

verus! {

/// Every way an operation of the vault can fail. A failed operation leaves
/// the vault and the depositor unchanged.
#[derive(Debug, Clone, Copy, PartialEq, Eq, Structural)]
pub enum ErrorCode {
    UninitializedAccount,
    InvalidPDA,
    InvalidDataLength,
    InvalidInput,
    InvalidVaultInitialization,
    PermissionedVault,
    VaultIsAtCapacity,
    Overflow,
    InvalidVaultDeposit,
    VaultWithdrawRequestInProgress,
    InvalidVaultWithdrawSize,
    CannotWithdrawBeforeRedeemPeriodEnd,
    InvalidEquityValue,
    InsufficientVaultShares,
    InvalidVaultWithdraw,
    MathError,
    InsufficientWithdraw,
    InsufficientShares,
    /// A price feed behind the valuation is stale or invalid, or the
    /// valuation is negative.
    InvalidOracle,
    /// The caller is not the vault's manager.
    InvalidVaultManager,
    /// More fees asked for than have accrued and not been collected.
    InsufficientFees,
}

} // verus!
