use std::str::FromStr;

use amm_toolkit::checkpoint::Checkpoint;
use amm_toolkit::config::{symmetric_pairs, ConfigError, PairEntry};
use amm_toolkit::discovery::{
    finish_discovery, nonzero_addresses, pool_from_row, pools_from_batch, require_populated,
    retain_populated, single_pool, values_by_address, window_addresses, RawPoolData,
};
use amm_toolkit::error::AMMError;
use amm_toolkit::factory::{UniswapV2Factory, DEFAULT_MAX_DEPTH, DEFAULT_STEP};
use amm_toolkit::paginator::{Paginator, Window};
use amm_toolkit::pool::UniswapV2Pool;
use amm_toolkit::sync::{
    finish_resync, index_scan, log_scan, log_scan_start, plan_sync, SyncPlan,
};
use ethers::types::{H160, U256};

fn addr(s: &str) -> H160 {
    H160::from_str(s).unwrap()
}

fn row(token_a: &str, dec_a: u64, token_b: &str, dec_b: u64, r0: u128, r1: u128) -> RawPoolData {
    RawPoolData {
        token_a: addr(token_a),
        token_a_decimals: U256::from(dec_a),
        token_b: addr(token_b),
        token_b_decimals: U256::from(dec_b),
        reserve_0: U256::from(r0),
        reserve_1: U256::from(r1),
    }
}

fn numbered_pool(n: u64, r0: u128) -> UniswapV2Pool {
    UniswapV2Pool::new(
        H160::from_low_u64_be(n),
        H160::from_low_u64_be(1000 + n),
        18,
        H160::from_low_u64_be(2000 + n),
        18,
        r0,
        500,
        300,
    )
}

#[test]
fn mod_test_get_uniswap_v2_pool_data_batch_request_single() {
    let uniswap_v2_usdc_weth_pair_address = addr("0xB4e16d0168e52d35CaCD2c6185b44281Ec28C9Dc");
    let rows = vec![row(
        "0xA0b86991c6218b36c1d19D4a2e9Eb0cE3606eB48",
        6,
        "0xC02aaA39b223FE8D0A0e5C4F27eAD9083C756Cc2",
        18,
        30_000_000_000_000,
        15_000_000_000_000_000_000_000,
    )];
    let result = pools_from_batch(&vec![uniswap_v2_usdc_weth_pair_address], &rows, 300);
    match result {
        Ok(pools) => {
            let pool = pools[0];
            assert_eq!(pool.address, uniswap_v2_usdc_weth_pair_address);
            assert_eq!(pool.token_a, addr("0xA0b86991c6218b36c1d19D4a2e9Eb0cE3606eB48"));
            assert_eq!(pool.token_a_decimals, 6);
            assert_eq!(pool.token_b, addr("0xC02aaA39b223FE8D0A0e5C4F27eAD9083C756Cc2"));
            assert_eq!(pool.token_b_decimals, 18);
            assert!(pool.reserve_0 > 0);
            assert!(pool.reserve_1 > 0);
            assert!(pool.fee == 300);
        }
        Err(e) => panic!("Error: {:?}", e),
    }
}

#[test]
fn batch_request_test_get_uniswap_v2_pool_data_batch_request_single() {
    let address = addr("0xB4e16d0168e52d35CaCD2c6185b44281Ec28C9Dc");
    let r = row(
        "0xA0b86991c6218b36c1d19D4a2e9Eb0cE3606eB48",
        6,
        "0xC02aaA39b223FE8D0A0e5C4F27eAD9083C756Cc2",
        18,
        1,
        1,
    );
    match pool_from_row(&r, address, 300) {
        Ok(pool) => {
            assert_eq!(pool.address, address);
            assert_eq!(pool.token_a, addr("0xA0b86991c6218b36c1d19D4a2e9Eb0cE3606eB48"));
            assert_eq!(pool.token_a_decimals, 6);
            assert_eq!(pool.token_b, addr("0xC02aaA39b223FE8D0A0e5C4F27eAD9083C756Cc2"));
            assert_eq!(pool.token_b_decimals, 18);
            assert!(pool.reserve_0 > 0);
            assert!(pool.reserve_1 > 0);
            assert!(pool.fee == 300);
        }
        Err(e) => panic!("Error: {:?}", e),
    }
}

fn two_pool_batch() -> (Vec<H160>, Vec<RawPoolData>) {
    let addresses = vec![
        addr("0xB4e16d0168e52d35CaCD2c6185b44281Ec28C9Dc"), // WETH<>USDc
        addr("0x811beed0119b4afce20d2583eb608c6f7af1954f"), // SHIB<>WETH
    ];
    let rows = vec![
        row(
            "0xA0b86991c6218b36c1d19D4a2e9Eb0cE3606eB48",
            6,
            "0xC02aaA39b223FE8D0A0e5C4F27eAD9083C756Cc2",
            18,
            30_000_000_000_000,
            15_000_000_000_000_000_000_000,
        ),
        row(
            "0x95ad61b0a150d79219dcf64e1e6cc01f0b64c4ce",
            18,
            "0xC02aaA39b223FE8D0A0e5C4F27eAD9083C756Cc2",
            18,
            700_000_000_000_000_000_000_000_000_000,
            400_000_000_000_000_000_000,
        ),
    ];
    (addresses, rows)
}

fn check_two_pools(addresses: &[H160], r: &[UniswapV2Pool]) {
    let pool1 = &r[0];
    let pool2 = &r[1];
    assert_eq!(pool1.address, addresses[0]);
    assert_eq!(pool1.token_a, addr("0xA0b86991c6218b36c1d19D4a2e9Eb0cE3606eB48"));
    assert_eq!(pool1.token_a_decimals, 6);
    assert_eq!(pool1.token_b, addr("0xC02aaA39b223FE8D0A0e5C4F27eAD9083C756Cc2"));
    assert_eq!(pool1.token_b_decimals, 18);
    assert!(pool1.reserve_0 > 0);
    assert!(pool1.reserve_1 > 0);
    assert!(pool1.fee == 300);
    assert_eq!(pool2.address, addresses[1]);
    assert_eq!(pool2.token_a, addr("0x95ad61b0a150d79219dcf64e1e6cc01f0b64c4ce"));
    assert_eq!(pool2.token_a_decimals, 18);
    assert_eq!(pool2.token_b, addr("0xC02aaA39b223FE8D0A0e5C4F27eAD9083C756Cc2"));
    assert_eq!(pool2.token_b_decimals, 18);
    assert!(pool2.reserve_0 > 0);
    assert!(pool2.reserve_1 > 0);
    assert!(pool2.fee == 300);
}

#[test]
fn mod_test_get_uniswap_v2_pool_data_batch_request() {
    let (addresses, rows) = two_pool_batch();
    let r = pools_from_batch(&addresses, &rows, 300).unwrap();
    check_two_pools(&addresses, &r);
}

#[test]
fn batch_request_test_get_uniswap_v2_pool_data_batch_request() {
    let (addresses, rows) = two_pool_batch();
    let mut pager: Paginator<UniswapV2Pool> = Paginator::new(0, addresses.len() as u64, 1, 4);
    let outcomes = pager
        .pending_windows()
        .iter()
        .map(|w| {
            let slice = window_addresses(&addresses, *w);
            pools_from_batch(&slice, &rows[w.from as usize..w.to as usize].to_vec(), 300)
        })
        .collect();
    pager.record(outcomes);
    let (r, dropped) = finish_discovery(pager).unwrap();
    assert!(dropped.is_empty());
    check_two_pools(&addresses, &r);
}

#[test]
fn test_get_weth_value_in_pool_batch_request() {
    let pool_address = addr("0xB4e16d0168e52d35CaCD2c6185b44281Ec28C9Dc");
    let total = values_by_address(&vec![pool_address], &vec![U256::from(1_000_000u64)]).unwrap();
    assert_eq!(total, vec![(pool_address, U256::from(1_000_000u64))]);
}

#[test]
fn batch_shape_mismatch_is_a_decode_failure() {
    let (addresses, rows) = two_pool_batch();
    assert_eq!(
        pools_from_batch(&addresses, &rows[..1].to_vec(), 300),
        Err(AMMError::BatchRequestError(addresses[1]))
    );
    let mut longer = rows.clone();
    longer.push(rows[0]);
    assert_eq!(
        pools_from_batch(&addresses, &longer, 300),
        Err(AMMError::BatchRequestError(H160::zero()))
    );
    assert_eq!(
        values_by_address(&vec![addresses[0]], &vec![U256::one(), U256::one()]),
        Err(AMMError::BatchRequestError(H160::zero()))
    );
    let fewer = values_by_address(&addresses, &vec![U256::from(7u64)]).unwrap();
    assert_eq!(fewer, vec![(addresses[0], U256::from(7u64))]);
}

#[test]
fn out_of_range_entry_is_a_decode_failure() {
    let (addresses, mut rows) = two_pool_batch();
    rows[1].token_a_decimals = U256::from(300u64);
    assert_eq!(pools_from_batch(&addresses, &rows, 300), Err(AMMError::BatchRequestError(addresses[1])));
    let (addresses, mut rows) = two_pool_batch();
    rows[0].reserve_1 = U256::MAX;
    assert_eq!(pools_from_batch(&addresses, &rows, 300), Err(AMMError::BatchRequestError(addresses[0])));
}

#[test]
fn unpopulated_pool_is_dropped_alone() {
    let batch = vec![numbered_pool(1, 10), numbered_pool(2, 0), numbered_pool(3, 30)];
    let (kept, dropped) = retain_populated(batch.clone());
    assert_eq!(kept, vec![batch[0], batch[2]]);
    assert_eq!(dropped, vec![H160::from_low_u64_be(2)]);
}

#[test]
fn discovery_run_tolerates_unpopulated_and_aborts_on_failure() {
    let mut pager: Paginator<UniswapV2Pool> = Paginator::new(0, 4, 2, 4);
    pager.record(vec![
        Ok(vec![numbered_pool(1, 10), numbered_pool(2, 0)]),
        Ok(vec![numbered_pool(3, 30), numbered_pool(4, 40)]),
    ]);
    let (kept, dropped) = finish_discovery(pager).unwrap();
    assert_eq!(kept.len(), 3);
    assert_eq!(dropped, vec![H160::from_low_u64_be(2)]);

    let mut pager: Paginator<UniswapV2Pool> = Paginator::new(0, 4, 2, 4);
    pager.record(vec![
        Ok(vec![numbered_pool(1, 10), numbered_pool(2, 20)]),
        Err(AMMError::BatchRequestError(H160::from_low_u64_be(3))),
    ]);
    assert_eq!(finish_discovery(pager), Err(AMMError::BatchRequestError(H160::from_low_u64_be(3))));
}

#[test]
fn zero_pair_addresses_are_left_out() {
    let a = H160::from_low_u64_be(7);
    let b = H160::from_low_u64_be(9);
    assert_eq!(nonzero_addresses(&vec![a, H160::zero(), b, H160::zero()]), vec![a, b]);
    assert!(nonzero_addresses(&vec![]).is_empty());
}

#[test]
fn window_of_an_address_list() {
    let list: Vec<H160> = (1..=5).map(H160::from_low_u64_be).collect();
    assert_eq!(window_addresses(&list, Window { from: 1, to: 3 }), list[1..3].to_vec());
    assert!(window_addresses(&list, Window { from: 5, to: 5 }).is_empty());
}

#[test]
fn resync_from_checkpoint() {
    let factory = UniswapV2Factory::new(addr("0x5C69bEe701ef814a2B6a3EDD4B1652CB9cc5aA6f"), 10000835, 300);
    let known: Vec<UniswapV2Pool> = (1..=5).map(|n| numbered_pool(n, 10)).collect();
    let mut checkpoint = Checkpoint::new(1_700_000_000, 100, factory, known.clone());
    let plan = plan_sync(Some(checkpoint.block_number), 150);
    assert_eq!(plan, SyncPlan::LogScan { from_block: 101, to_block: 150 });
    assert_eq!(log_scan_start(&factory, Some(100)), 101);
    let mut pager: Paginator<UniswapV2Pool> = log_scan(101, 150, DEFAULT_STEP, DEFAULT_MAX_DEPTH);
    assert_eq!(pager.pending_windows(), vec![Window { from: 101, to: 151 }]);
    assert_eq!(pager.pending_windows()[0].last(), 150);
    let created = vec![numbered_pool(6, 60), numbered_pool(7, 70)];
    pager.record(vec![Ok(created.clone())]);
    let (new_pools, dropped) = finish_discovery(pager).unwrap();
    assert_eq!(new_pools, created);
    assert!(dropped.is_empty());
    checkpoint.apply_sync(&new_pools, 150, 1_700_000_600);
    assert_eq!(checkpoint.pools.len(), 7);
    assert_eq!(checkpoint.block_number, 150);
    assert_eq!(checkpoint.timestamp, 1_700_000_600);
    assert_eq!(checkpoint.pools[..5].to_vec(), known);
    assert_eq!(checkpoint.pools[5..].to_vec(), created);
}

#[test]
fn first_run_plans_an_index_scan() {
    let factory = UniswapV2Factory::new(addr("0x5C69bEe701ef814a2B6a3EDD4B1652CB9cc5aA6f"), 10000835, 300);
    assert_eq!(plan_sync(None, 18_000_000), SyncPlan::IndexScan { block: 18_000_000 });
    assert_eq!(log_scan_start(&factory, None), 10000835);
    let pager: Paginator<H160> = index_scan(1534, 766, DEFAULT_MAX_DEPTH);
    assert_eq!(
        pager.pending_windows(),
        vec![Window { from: 0, to: 766 }, Window { from: 766, to: 1532 }, Window { from: 1532, to: 1534 }]
    );
    let empty: Paginator<H160> = log_scan(151, 150, DEFAULT_STEP, DEFAULT_MAX_DEPTH);
    assert!(empty.is_finished());
}

#[test]
fn pair_table_is_symmetric() {
    let weth = H160::from_low_u64_be(1);
    let entries = vec![PairEntry { token_0: "WETH".to_string(), token_1: "USDc".to_string(), pool: weth }];
    let out = symmetric_pairs(entries);
    assert_eq!(out.len(), 2);
    assert_eq!(out[0].token_0, "WETH");
    assert_eq!(out[1].token_0, "USDc");
    assert_eq!(out[1].token_1, "WETH");
    assert_eq!(out[1].pool, weth);
}

#[test]
fn config_error_messages() {
    let e = ConfigError::EnvVarMissing("NETWORK_RPC".to_string());
    assert_eq!(format!("{}{}", e.prefix(), e.detail()), "Missing env variable: NETWORK_RPC");
    let e = ConfigError::UniswapPairsLoadError("bad yaml".to_string());
    assert_eq!(format!("{}{}", e.prefix(), e.detail()), "Uniswap pairs loading error: bad yaml");
}

#[test]
fn single_pool_and_populated_check() {
    let address = H160::from_low_u64_be(9);
    assert_eq!(single_pool(&vec![], address), Err(AMMError::BatchRequestError(address)));
    let p = numbered_pool(9, 10);
    assert_eq!(single_pool(&vec![p], address), Ok(p));
    assert_eq!(require_populated(p), Ok(p));
    let empty = numbered_pool(9, 0);
    assert_eq!(require_populated(empty), Err(AMMError::PoolDataError(H160::from_low_u64_be(9))));
}

#[test]
fn resync_applies_new_pools_or_nothing() {
    let factory = UniswapV2Factory::new(H160::from_low_u64_be(77), 10, 300);
    let known: Vec<UniswapV2Pool> = (1..=5).map(|n| numbered_pool(n, 10)).collect();

    let mut checkpoint = Checkpoint::new(1_000, 100, factory, known.clone());
    let mut pager: Paginator<UniswapV2Pool> = Paginator::new(0, 3, 10, 4);
    pager.record(vec![Ok(vec![numbered_pool(6, 60), numbered_pool(7, 0), numbered_pool(8, 80)])]);
    let (new_pools, dropped) = finish_resync(&mut checkpoint, pager, 150, 2_000).unwrap();
    assert_eq!(new_pools, vec![numbered_pool(6, 60), numbered_pool(8, 80)]);
    assert_eq!(dropped, vec![H160::from_low_u64_be(7)]);
    assert_eq!(checkpoint.pools.len(), 7);
    assert_eq!(checkpoint.block_number, 150);
    assert_eq!(checkpoint.timestamp, 2_000);

    let mut untouched = Checkpoint::new(1_000, 100, factory, known.clone());
    let mut pager: Paginator<UniswapV2Pool> = Paginator::new(0, 3, 10, 4);
    pager.record(vec![Err(AMMError::MiddlewareError("timeout".to_string()))]);
    assert_eq!(
        finish_resync(&mut untouched, pager, 150, 2_000).map(|r| r.0),
        Err(AMMError::MiddlewareError("timeout".to_string()))
    );
    assert_eq!(untouched.pools, known);
    assert_eq!(untouched.block_number, 100);
    assert_eq!(untouched.timestamp, 1_000);
}
