//! From decoded batch responses to pools: one pool per requested address,
//! zero addresses left out, unpopulated pools dropped.
use vstd::prelude::*;

use crate::error::AMMError;
use crate::paginator::{merged, pending_count, Paginator, Window};
use crate::pool::{populated, UniswapV2Pool};
use crate::wide::{fits_u128, is_zero_address, pow128, u256_val};

verus! {

/// One entry of the pool-data batch response, as decoded from the chain.
#[derive(Debug, Clone, Copy, Default, PartialEq, Eq)]
pub struct RawPoolData {
    pub token_a: ethers::types::H160,
    pub token_a_decimals: ethers::types::U256,
    pub token_b: ethers::types::H160,
    pub token_b_decimals: ethers::types::U256,
    pub reserve_0: ethers::types::U256,
    pub reserve_1: ethers::types::U256,
}

/// Decimals fit in a byte and reserves in 128 bits.
pub open spec fn row_fits(row: RawPoolData) -> bool {
    u256_val(row.token_a_decimals) < 256 && u256_val(row.token_b_decimals) < 256 && u256_val(
        row.reserve_0,
    ) < pow128() && u256_val(row.reserve_1) < pow128()
}

/// The pool that a fitting entry describes.
pub open spec fn pool_of_row(
    row: RawPoolData,
    address: ethers::types::H160,
    fee: u32,
) -> UniswapV2Pool {
    UniswapV2Pool {
        address,
        token_a: row.token_a,
        token_a_decimals: u256_val(row.token_a_decimals) as u8,
        token_b: row.token_b,
        token_b_decimals: u256_val(row.token_b_decimals) as u8,
        reserve_0: u256_val(row.reserve_0) as u128,
        reserve_1: u256_val(row.reserve_1) as u128,
        fee,
    }
}

/// The pool at `address` from one response entry, tagged with `fee`; a
/// value out of range is a decode failure for that address.
pub fn pool_from_row(row: &RawPoolData, address: ethers::types::H160, fee: u32) -> (r: Result<
    UniswapV2Pool,
    AMMError,
>)
    ensures
        row_fits(*row) ==> r == Ok::<UniswapV2Pool, AMMError>(pool_of_row(*row, address, fee)),
        !row_fits(*row) ==> r == Err::<UniswapV2Pool, AMMError>(
            AMMError::BatchRequestError(address),
        ),
{
    if !fits_u128(&row.token_a_decimals) || !fits_u128(&row.token_b_decimals) || !fits_u128(
        &row.reserve_0,
    ) || !fits_u128(&row.reserve_1) {
        return Err(AMMError::BatchRequestError(address));
    }
    let dec_a = row.token_a_decimals.as_u128();
    let dec_b = row.token_b_decimals.as_u128();
    if dec_a > 255 || dec_b > 255 {
        return Err(AMMError::BatchRequestError(address));
    }
    Ok(
        UniswapV2Pool {
            address,
            token_a: row.token_a,
            token_a_decimals: dec_a as u8,
            token_b: row.token_b,
            token_b_decimals: dec_b as u8,
            reserve_0: row.reserve_0.as_u128(),
            reserve_1: row.reserve_1.as_u128(),
            fee,
        },
    )
}

/// Whether the response holds a fitting entry for slot `i`.
pub open spec fn slot_fits(rows: Seq<RawPoolData>, i: int) -> bool {
    i < rows.len() && row_fits(rows[i])
}

/// Maps the response entries one for one, by position, onto the requested
/// addresses. The first slot whose entry is missing or out of range is a
/// decode failure reported against its address; entries beyond the last
/// address are one reported against the zero address.
pub fn pools_from_batch(
    addresses: &Vec<ethers::types::H160>,
    rows: &Vec<RawPoolData>,
    fee: u32,
) -> (r: Result<Vec<UniswapV2Pool>, AMMError>)
    ensures
        forall|k: int|
            0 <= k < addresses@.len() && !slot_fits(rows@, k) && (forall|i: int|
                0 <= i < k ==> slot_fits(rows@, i)) ==> r == Err::<Vec<UniswapV2Pool>, AMMError>(
                AMMError::BatchRequestError(#[trigger] addresses@[k]),
            ),
        (forall|i: int| 0 <= i < addresses@.len() ==> slot_fits(rows@, i)) && rows@.len()
            > addresses@.len() ==> r is Err && r->Err_0 is BatchRequestError && is_zero_address(
            r->Err_0->BatchRequestError_0,
        ),
        (forall|i: int| 0 <= i < addresses@.len() ==> slot_fits(rows@, i)) && rows@.len()
            == addresses@.len() ==> r is Ok,
        r is Ok ==> rows@.len() == addresses@.len() && (forall|i: int|
            0 <= i < rows@.len() ==> row_fits(#[trigger] rows@[i])) && r->Ok_0@.len()
            == addresses@.len() && forall|i: int|
            0 <= i < addresses@.len() ==> #[trigger] r->Ok_0@[i] == pool_of_row(
                rows@[i],
                addresses@[i],
                fee,
            ),
{
    let mut pools: Vec<UniswapV2Pool> = Vec::new();
    let mut i: usize = 0;
    while i < addresses.len()
        invariant
            i <= addresses@.len(),
            pools@.len() == i,
            forall|j: int| 0 <= j < i ==> slot_fits(rows@, j),
            forall|j: int|
                0 <= j < i ==> #[trigger] pools@[j] == pool_of_row(rows@[j], addresses@[j], fee),
        decreases addresses.len() - i,
    {
        if i >= rows.len() {
            proof {
                assert(!slot_fits(rows@, i as int));
            }
            return Err(AMMError::BatchRequestError(addresses[i]));
        }
        match pool_from_row(&rows[i], addresses[i], fee) {
            Ok(p) => {
                pools.push(p);
            },
            Err(e) => {
                proof {
                    assert(!slot_fits(rows@, i as int));
                }
                return Err(e);
            },
        }
        i = i + 1;
    }
    if rows.len() > addresses.len() {
        return Err(AMMError::BatchRequestError(ethers::types::H160::zero()));
    }
    proof {
        if addresses@.len() > 0 {
            assert(slot_fits(rows@, addresses@.len() - 1));
        }
        assert(rows@.len() == addresses@.len());
        assert forall|j: int| 0 <= j < rows@.len() implies row_fits(#[trigger] rows@[j]) by {
            assert(slot_fits(rows@, j));
        }
    }
    Ok(pools)
}

/// The populated pools of `s`, in order.
pub open spec fn keep_populated(s: Seq<UniswapV2Pool>) -> Seq<UniswapV2Pool>
    decreases s.len(),
{
    if s.len() == 0 {
        Seq::empty()
    } else if populated(s.last()) {
        keep_populated(s.drop_last()).push(s.last())
    } else {
        keep_populated(s.drop_last())
    }
}

/// The addresses of the unpopulated pools of `s`, in order.
pub open spec fn unpopulated_addresses(s: Seq<UniswapV2Pool>) -> Seq<ethers::types::H160>
    decreases s.len(),
{
    if s.len() == 0 {
        Seq::empty()
    } else if populated(s.last()) {
        unpopulated_addresses(s.drop_last())
    } else {
        unpopulated_addresses(s.drop_last()).push(s.last().address)
    }
}

/// Splits fetched pools into the populated ones, which discovery keeps, and
/// the addresses of the others, which it reports and drops.
pub fn retain_populated(pools: Vec<UniswapV2Pool>) -> (r: (
    Vec<UniswapV2Pool>,
    Vec<ethers::types::H160>,
))
    ensures
        r.0@ == keep_populated(pools@),
        r.1@ == unpopulated_addresses(pools@),
{
    let mut kept: Vec<UniswapV2Pool> = Vec::new();
    let mut dropped: Vec<ethers::types::H160> = Vec::new();
    let mut i: usize = 0;
    while i < pools.len()
        invariant
            i <= pools@.len(),
            kept@ == keep_populated(pools@.take(i as int)),
            dropped@ == unpopulated_addresses(pools@.take(i as int)),
        decreases pools.len() - i,
    {
        let p = pools[i];
        proof {
            assert(pools@.take(i + 1).drop_last() == pools@.take(i as int));
            assert(pools@.take(i + 1).last() == p);
        }
        if p.data_is_populated() {
            kept.push(p);
        } else {
            dropped.push(p.address);
        }
        i = i + 1;
    }
    proof {
        assert(pools@.take(pools@.len() as int) == pools@);
    }
    (kept, dropped)
}

/// One unpopulated pool in a batch is dropped alone: when every other pool of
/// the batch is populated, discovery keeps all of them, in order, and reports
/// only that pool's address.
pub proof fn lemma_unpopulated_dropped_alone(s: Seq<UniswapV2Pool>, k: int)
    requires
        0 <= k < s.len(),
        !populated(s[k]),
        forall|i: int| 0 <= i < s.len() && i != k ==> populated(#[trigger] s[i]),
    ensures
        keep_populated(s) == s.remove(k),
        unpopulated_addresses(s) == seq![s[k].address],
    decreases s.len(),
{
    let init = s.drop_last();
    if k == s.len() - 1 {
        lemma_all_populated(init);
        assert(init == s.remove(k));
        assert(unpopulated_addresses(init) == Seq::<ethers::types::H160>::empty());
        assert(Seq::<ethers::types::H160>::empty().push(s[k].address) == seq![s[k].address]);
    } else {
        assert forall|i: int| 0 <= i < init.len() && i != k implies populated(
            #[trigger] init[i],
        ) by {
            assert(init[i] == s[i]);
        }
        assert(init[k] == s[k]);
        lemma_unpopulated_dropped_alone(init, k);
        assert(populated(s.last()));
        assert(init.remove(k).push(s.last()) =~= s.remove(k));
    }
}

/// A batch of populated pools is kept whole.
pub proof fn lemma_all_populated(s: Seq<UniswapV2Pool>)
    requires
        forall|i: int| 0 <= i < s.len() ==> populated(#[trigger] s[i]),
    ensures
        keep_populated(s) == s,
        unpopulated_addresses(s) == Seq::<ethers::types::H160>::empty(),
    decreases s.len(),
{
    if s.len() > 0 {
        let init = s.drop_last();
        assert forall|i: int| 0 <= i < init.len() implies populated(#[trigger] init[i]) by {
            assert(init[i] == s[i]);
        }
        lemma_all_populated(init);
        assert(populated(s[s.len() - 1]));
        assert(init.push(s.last()) =~= s);
    }
}

/// The non-zero addresses of `s`, in order.
pub open spec fn nonzero_only(s: Seq<ethers::types::H160>) -> Seq<ethers::types::H160>
    decreases s.len(),
{
    if s.len() == 0 {
        Seq::empty()
    } else if is_zero_address(s.last()) {
        nonzero_only(s.drop_last())
    } else {
        nonzero_only(s.drop_last()).push(s.last())
    }
}

/// The pair addresses of a registry batch without the zero addresses, which
/// mark indices past the registry's end.
pub fn nonzero_addresses(addresses: &Vec<ethers::types::H160>) -> (r: Vec<ethers::types::H160>)
    ensures
        r@ == nonzero_only(addresses@),
{
    let mut out: Vec<ethers::types::H160> = Vec::new();
    let mut i: usize = 0;
    while i < addresses.len()
        invariant
            i <= addresses@.len(),
            out@ == nonzero_only(addresses@.take(i as int)),
        decreases addresses.len() - i,
    {
        let a = addresses[i];
        proof {
            assert(addresses@.take(i + 1).drop_last() == addresses@.take(i as int));
            assert(addresses@.take(i + 1).last() == a);
        }
        if !a.is_zero() {
            out.push(a);
        }
        i = i + 1;
    }
    proof {
        assert(addresses@.take(addresses@.len() as int) == addresses@);
    }
    out
}

/// The addresses that one window of an address list covers.
pub fn window_addresses(addresses: &Vec<ethers::types::H160>, w: Window) -> (r: Vec<
    ethers::types::H160,
>)
    requires
        w.from <= w.to <= addresses@.len(),
    ensures
        r@ == addresses@.subrange(w.from as int, w.to as int),
{
    let mut out: Vec<ethers::types::H160> = Vec::new();
    let mut i: u64 = w.from;
    while i < w.to
        invariant
            w.from <= i <= w.to <= addresses@.len(),
            out@ == addresses@.subrange(w.from as int, i as int),
        decreases w.to - i,
    {
        proof {
            assert(addresses@.len() == addresses.len());
        }
        let idx = i as usize;
        out.push(addresses[idx]);
        proof {
            assert(out@ =~= addresses@.subrange(w.from as int, i + 1));
        }
        i = i + 1;
    }
    out
}

/// Pairs the values of a batch response with the addresses they were asked
/// for, by position. More values than addresses is a decode failure reported
/// against the zero address; fewer leave the last addresses without a value.
pub fn values_by_address(
    addresses: &Vec<ethers::types::H160>,
    values: &Vec<ethers::types::U256>,
) -> (r: Result<Vec<(ethers::types::H160, ethers::types::U256)>, AMMError>)
    ensures
        values@.len() > addresses@.len() ==> r is Err && r->Err_0 is BatchRequestError
            && is_zero_address(r->Err_0->BatchRequestError_0),
        values@.len() <= addresses@.len() ==> r is Ok && r->Ok_0@.len() == values@.len()
            && forall|i: int|
            0 <= i < values@.len() ==> #[trigger] r->Ok_0@[i] == (addresses@[i], values@[i]),
{
    if values.len() > addresses.len() {
        return Err(AMMError::BatchRequestError(ethers::types::H160::zero()));
    }
    let mut out: Vec<(ethers::types::H160, ethers::types::U256)> = Vec::new();
    let mut i: usize = 0;
    while i < values.len()
        invariant
            values@.len() <= addresses@.len(),
            i <= values@.len(),
            out@.len() == i,
            forall|j: int| 0 <= j < i ==> #[trigger] out@[j] == (addresses@[j], values@[j]),
        decreases values.len() - i,
    {
        out.push((addresses[i], values[i]));
        i = i + 1;
    }
    Ok(out)
}

/// Ends a discovery run once no window is pending: a failed window aborts the
/// run with its failure; otherwise every fetched pool, in range order, is
/// split into the populated pools that the run returns and the addresses of
/// the unpopulated ones that it drops.
pub fn finish_discovery(pager: Paginator<UniswapV2Pool>) -> (r: Result<
    (Vec<UniswapV2Pool>, Vec<ethers::types::H160>),
    AMMError,
>)
    requires
        pending_count(pager.slots@) == 0,
    ensures
        merged(pager.slots@) is Err ==> r is Err && r->Err_0 == merged(pager.slots@)->Err_0,
        merged(pager.slots@) is Ok ==> r is Ok && r->Ok_0.0@ == keep_populated(
            merged(pager.slots@)->Ok_0,
        ) && r->Ok_0.1@ == unpopulated_addresses(merged(pager.slots@)->Ok_0),
{
    match pager.merge() {
        Ok(pools) => Ok(retain_populated(pools)),
        Err(e) => Err(e),
    }
}

/// The one pool of a single-address batch; an empty response is a decode
/// failure for that address.
pub fn single_pool(pools: &Vec<UniswapV2Pool>, address: ethers::types::H160) -> (r: Result<
    UniswapV2Pool,
    AMMError,
>)
    ensures
        pools@.len() > 0 ==> r == Ok::<UniswapV2Pool, AMMError>(pools@[0]),
        pools@.len() == 0 ==> r == Err::<UniswapV2Pool, AMMError>(
            AMMError::BatchRequestError(address),
        ),
{
    if pools.len() > 0 {
        Ok(pools[0])
    } else {
        Err(AMMError::BatchRequestError(address))
    }
}

/// A pool that is populated, or the failure that names it.
pub fn require_populated(pool: UniswapV2Pool) -> (r: Result<UniswapV2Pool, AMMError>)
    ensures
        populated(pool) ==> r == Ok::<UniswapV2Pool, AMMError>(pool),
        !populated(pool) ==> r == Err::<UniswapV2Pool, AMMError>(
            AMMError::PoolDataError(pool.address),
        ),
{
    if pool.data_is_populated() {
        Ok(pool)
    } else {
        Err(AMMError::PoolDataError(pool.address))
    }
}

} // verus!
