//! What a synchronization run does, decided from what is known before it.
use vstd::prelude::*;

use crate::checkpoint::Checkpoint;
use crate::discovery::{finish_discovery, keep_populated, unpopulated_addresses};
use crate::error::AMMError;
use crate::factory::UniswapV2Factory;
use crate::paginator::{fresh, merged, pending_count, plan, Paginator};
use crate::pool::UniswapV2Pool;

verus! {

/// How a run finds pools.
#[derive(Debug, Clone, Copy, PartialEq, Eq, Structural)]
pub enum SyncPlan {
    /// No checkpoint: scan the registry's whole index space and record the
    /// block at which the run started.
    IndexScan { block: u64 },
    /// A checkpoint: scan the creation events of the blocks
    /// `from_block..=to_block`.
    LogScan { from_block: u64, to_block: u64 },
}

/// The plan of a run: with no checkpoint an index scan as of `current_block`;
/// after a checkpoint at block `b`, the creation events of blocks
/// `b + 1..=current_block`.
pub open spec fn sync_plan_of(checkpoint_block: Option<u64>, current_block: u64) -> SyncPlan {
    match checkpoint_block {
        None => SyncPlan::IndexScan { block: current_block },
        Some(b) => SyncPlan::LogScan { from_block: (b + 1) as u64, to_block: current_block },
    }
}

/// Chooses how a run finds pools.
pub fn plan_sync(checkpoint_block: Option<u64>, current_block: u64) -> (r: SyncPlan)
    requires
        checkpoint_block matches Some(b) ==> b < u64::MAX,
    ensures
        r == sync_plan_of(checkpoint_block, current_block),
{
    match checkpoint_block {
        None => SyncPlan::IndexScan { block: current_block },
        Some(b) => SyncPlan::LogScan { from_block: b + 1, to_block: current_block },
    }
}

/// The first block of a log scan: the registry's creation block on a first
/// run, the block after the checkpoint's on a resync.
pub fn log_scan_start(factory: &UniswapV2Factory, checkpoint_block: Option<u64>) -> (r: u64)
    requires
        checkpoint_block matches Some(b) ==> b < u64::MAX,
    ensures
        checkpoint_block is None ==> r == factory.creation_block,
        checkpoint_block matches Some(b) ==> r == b + 1,
{
    match checkpoint_block {
        None => factory.creation_block,
        Some(b) => b + 1,
    }
}

/// The windows of a scan over the registry's indices `[0, pair_count)`.
pub fn index_scan<T>(pair_count: u64, step: u64, max_depth: u32) -> (r: Paginator<T>)
    requires
        step > 0,
    ensures
        r.start == 0,
        r.end == pair_count,
        r.slots@ == fresh::<T>(plan(0, pair_count, step)),
        r.max_depth == max_depth,
        r.wf(),
{
    Paginator::new(0, pair_count, step, max_depth)
}

/// The windows of a scan over the blocks `from_block..=to_block`; empty when
/// `from_block` is past `to_block`.
pub fn log_scan<T>(from_block: u64, to_block: u64, step: u64, max_depth: u32) -> (r: Paginator<T>)
    requires
        step > 0,
        to_block < u64::MAX,
    ensures
        from_block <= to_block ==> r.start == from_block && r.end == to_block + 1
            && r.slots@ == fresh::<T>(plan(from_block, (to_block + 1) as u64, step)),
        from_block > to_block ==> r.slots@.len() == 0,
        r.max_depth == max_depth,
        r.wf(),
{
    if from_block <= to_block {
        Paginator::new(from_block, to_block + 1, step, max_depth)
    } else {
        let r: Paginator<T> = Paginator::new(from_block, from_block, step, max_depth);
        proof {
            assert(plan(from_block, from_block, step).len() == 0);
        }
        r
    }
}

/// Ends a resynchronization: once the pool fetches of the new blocks are
/// done, the populated pools they found are appended to the checkpoint, which
/// moves to `end_block`. A failed window aborts the run and leaves the
/// checkpoint as it was. Returns the new pools and the addresses of the
/// unpopulated ones that were dropped.
pub fn finish_resync(
    checkpoint: &mut Checkpoint,
    pager: Paginator<UniswapV2Pool>,
    end_block: u64,
    timestamp: usize,
) -> (r: Result<(Vec<UniswapV2Pool>, Vec<ethers::types::H160>), AMMError>)
    requires
        pending_count(pager.slots@) == 0,
    ensures
        merged(pager.slots@) is Err ==> r is Err && r->Err_0 == merged(pager.slots@)->Err_0
            && *final(checkpoint) == *old(checkpoint),
        merged(pager.slots@) is Ok ==> r is Ok && r->Ok_0.0@ == keep_populated(
            merged(pager.slots@)->Ok_0,
        ) && r->Ok_0.1@ == unpopulated_addresses(merged(pager.slots@)->Ok_0)
            && final(checkpoint).pools@ == old(checkpoint).pools@ + r->Ok_0.0@
            && final(checkpoint).block_number == end_block && final(checkpoint).timestamp
            == timestamp && final(checkpoint).factory == old(checkpoint).factory,
{
    match finish_discovery(pager) {
        Ok((new_pools, dropped)) => {
            checkpoint.apply_sync(&new_pools, end_block, timestamp);
            Ok((new_pools, dropped))
        },
        Err(e) => Err(e),
    }
}

} // verus!
