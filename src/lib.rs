//! Discovery and synchronization of constant-product liquidity pools, and
//! the swap and price arithmetic on their reserves.
//!
//! The chain itself is reached by the caller: this crate decides which ranges
//! to fetch, what to do with each outcome, and what the fetched data means.
use vstd::prelude::*;

pub mod checkpoint;
pub mod config;
pub mod discovery;
pub mod error;
pub mod factory;
pub mod math;
pub mod paginator;
pub mod pool;
pub mod sync;
pub mod wide;

verus! {

} // verus!
