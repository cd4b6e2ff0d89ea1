//! The registry contract that creates and enumerates pools.
use vstd::prelude::*;

verus! {

/// Pair addresses fetched per batch when scanning the registry's index space;
/// above it the batch contract grows past the code-size limit.
pub const PAIR_ADDRESS_STEP: u64 = 766;

/// Indices or blocks per window when fetching pool data.
pub const DEFAULT_STEP: u64 = 100;

/// How many windows are fetched at the same time, so that a large range does
/// not exhaust the endpoint's connections or rate limit.
pub const DEFAULT_CONCURRENCY: usize = 16;

/// How many times a too-large window may be halved.
pub const DEFAULT_MAX_DEPTH: u32 = 8;

/// Which registry is scanned, from which block, and the fee of its pools.
#[derive(Debug, Clone, Copy, Default, PartialEq, Eq)]
pub struct UniswapV2Factory {
    pub address: ethers::types::H160,
    pub creation_block: u64,
    /// Fee of every pool of this registry, in basis points.
    pub fee: u32,
}

impl UniswapV2Factory {
    pub fn new(address: ethers::types::H160, creation_block: u64, fee: u32) -> (r:
        UniswapV2Factory)
        ensures
            r == (UniswapV2Factory { address, creation_block, fee }),
    {
        UniswapV2Factory { address, creation_block, fee }
    }
}

} // verus!
