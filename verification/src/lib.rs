//! Settlement of a slashed operator's staking pool.
//!
//! Given a snapshot of an operator's pool totals and of every nominator's
//! deposit and withdrawal records, the library computes the balance each
//! nominator is owed. Every executable function is verified against the
//! mathematical model stated in its contract, but for the four calls into
//! `sp_runtime` in [`perbill`], whose contracts are taken on trust.

pub mod epoch;
pub mod error;
pub mod nominators;
pub mod perbill;
pub mod price;
pub mod settle;
pub mod types;
