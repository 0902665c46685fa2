//! An educational single-node ledger built around two verified cores: a
//! binary hash commitment tree with inclusion proofs, and a quota-based
//! mining simulation that seals blocks by running a deterministic
//! rock-paper-scissors game to completion.

pub mod digest;
pub mod merkle;
pub mod rps_mining;
mod clock;
mod kvlist;
pub mod decimal;
pub mod transaction;
pub mod balances;
pub mod system;
pub mod blockchain;

use vstd::prelude::*;

verus! {

} // verus!
