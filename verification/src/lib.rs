//! Bounded composite sieve and trial-division factorizer, with machine-checked
//! contracts.

pub mod arith;
pub mod composite;
pub mod factor;
pub mod schedule;
pub mod sieve;
pub mod unique;
