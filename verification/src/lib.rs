//! Accounting core of a multi-pool staking engine.
//!
//! The library tracks, per staking pool, how much reward has accrued per unit
//! staked, and per user, how much of that accrual they are entitled to. All
//! interaction with the execution environment (clock, token ledger, caller
//! authentication, event emission) happens outside: every entry point takes
//! the current time, the staked supply and the authenticated caller as plain
//! values, and hands any token transfer back to its caller as a value.

use vstd::prelude::*;

pub mod laws;
pub mod masterchef;
pub mod pool;
pub mod positions;

verus! {

/// Scale factor of the fixed-point per-share accumulator: rewards per unit
/// staked are kept multiplied by this constant so that integer division
/// retains twelve decimal digits of precision.
pub const ACC_REWARD_PRECISION: u128 = 1_000_000_000_000;

/// Why an operation was refused. Every error aborts the whole operation:
/// a function that returns an error leaves the engine state unchanged.
#[derive(Clone, Copy, Debug, PartialEq, Eq, Structural)]
pub enum StakingError {
    /// The caller is not the administrator of an administrative operation.
    Unauthorized,
    /// A deposit's attached token does not match the pool's staking token.
    TokenMismatch,
    /// A withdrawal asks for more than the caller's recorded stake.
    InsufficientStake,
    /// The fixed-width reward arithmetic would overflow, a total weight of
    /// zero would be divided by, or a pending reward came out negative.
    ArithmeticFault,
    /// The referenced pool id was never assigned.
    UnknownPool,
}

/// A token transfer the engine instructs its environment to perform.
#[derive(Clone, Copy, Debug, PartialEq, Eq, Structural)]
pub struct Transfer {
    /// Receiving account.
    pub to: u64,
    /// Token to move.
    pub token: u64,
    /// Number of token units to move.
    pub amount: u128,
}

} // verus!
