//! Deterministic state-transition core of a beacon-chain consensus client:
//! pending-deposit processing over a validator registry, and a fork-versioned
//! execution-payload container with a hand-written SSZ codec.

pub mod codec;
pub mod error;
pub mod fork;
pub mod hex;
pub mod laws;
pub mod payload;
pub mod altair;
pub mod base;
pub mod state;

use vstd::prelude::*;

verus! {

/// Effective balance of a deposit: the amount floored to the nearest
/// increment, then capped at the maximum.
pub open spec fn effective_balance(amount: u64, increment: u64, max_effective_balance: u64) -> int
    recommends
        increment > 0,
{
    let floored = amount - (amount as int % increment as int);
    if floored <= max_effective_balance {
        floored
    } else {
        max_effective_balance as int
    }
}

} // verus!
