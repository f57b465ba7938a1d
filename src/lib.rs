//! Accounting core of a pooled-investment vault: a share ledger over a
//! shared pool, manager fees and profit shares, and a two-phase
//! withdrawal protocol (request, wait, redeem).

pub mod common;
pub mod constants;
pub mod error;
pub mod events;
pub mod instruction;
pub mod instructions;
pub mod laws;
pub mod math;
pub mod tranches;
pub mod vault;
pub mod vault_depositor;
pub mod withdraw_request;
