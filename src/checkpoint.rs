//! The persisted state of a synchronization: when it ran, up to which block,
//! which registry, and every pool found so far.
use vstd::prelude::*;

use crate::factory::UniswapV2Factory;
use crate::pool::UniswapV2Pool;

verus! {

/// The pools of one registry as of one block.
#[derive(Debug, Clone)]
pub struct Checkpoint {
    /// Seconds since the epoch when the checkpoint was taken.
    pub timestamp: usize,
    pub block_number: u64,
    pub factory: UniswapV2Factory,
    /// Pools in discovery order. Addresses are not deduplicated: the
    /// registry lists each pool once, and a resynchronization only adds pools
    /// created after `block_number`, so a pool enters once unless the two
    /// discovery strategies are run over the same blocks.
    pub pools: Vec<UniswapV2Pool>,
}

impl Checkpoint {
    pub fn new(
        timestamp: usize,
        block_number: u64,
        factory: UniswapV2Factory,
        pools: Vec<UniswapV2Pool>,
    ) -> (r: Checkpoint)
        ensures
            r.timestamp == timestamp,
            r.block_number == block_number,
            r.factory == factory,
            r.pools@ == pools@,
    {
        Checkpoint { timestamp, block_number, factory, pools }
    }

    /// Records a resynchronization up to `end_block`: the pools found since
    /// the last block are appended after the known ones, in order, with no
    /// pool removed or merged.
    pub fn apply_sync(&mut self, new_pools: &Vec<UniswapV2Pool>, end_block: u64, timestamp: usize)
        ensures
            final(self).pools@ == old(self).pools@ + new_pools@,
            final(self).block_number == end_block,
            final(self).timestamp == timestamp,
            final(self).factory == old(self).factory,
    {
        let ghost before = self.pools@;
        let mut i: usize = 0;
        while i < new_pools.len()
            invariant
                i <= new_pools@.len(),
                self.pools@ == before + new_pools@.take(i as int),
                self.factory == old(self).factory,
            decreases new_pools.len() - i,
        {
            self.pools.push(new_pools[i]);
            proof {
                assert(new_pools@.take(i + 1) == new_pools@.take(i as int).push(
                    new_pools@[i as int],
                ));
                assert(self.pools@ =~= before + new_pools@.take(i + 1));
            }
            i = i + 1;
        }
        proof {
            assert(new_pools@.take(new_pools@.len() as int) == new_pools@);
        }
        self.block_number = end_block;
        self.timestamp = timestamp;
    }
}

} // verus!
