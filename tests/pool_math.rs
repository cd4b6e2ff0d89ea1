use std::str::FromStr;

use amm_toolkit::math::{div_uu, scale_pow10, ArithmeticError, Q64_ONE};
use amm_toolkit::pool::{SwapSimulationError, UniswapV2Pool};
use ethers::types::{H160, U256};

fn addr(s: &str) -> H160 {
    H160::from_str(s).unwrap()
}

fn usdc() -> H160 {
    addr("0xA0b86991c6218b36c1d19D4a2e9Eb0cE3606eB48")
}

fn weth() -> H160 {
    addr("0xC02aaA39b223FE8D0A0e5C4F27eAD9083C756Cc2")
}

fn pool(r0: u128, r1: u128, dec_a: u8, dec_b: u8, fee: u32) -> UniswapV2Pool {
    UniswapV2Pool::new(
        addr("0xB4e16d0168e52d35CaCD2c6185b44281Ec28C9Dc"),
        usdc(),
        dec_a,
        weth(),
        dec_b,
        r0,
        r1,
        fee,
    )
}

fn q64_to_f64(q: u128) -> f64 {
    q as f64 / 18446744073709551616.0
}

#[test]
fn swap_output_exact_value() {
    let p = pool(1000, 2000, 18, 18, 300);
    // 100 * 997 * 2000 / (1000 * 1000 + 100 * 997) = 199400000 / 1099700
    let out = p.simulate_swap(usdc(), U256::from(100u64)).unwrap();
    assert_eq!(out, U256::from(181u64));
}

#[test]
fn swap_output_reverse_direction() {
    let p = pool(1000, 2000, 18, 18, 300);
    // selling token b: reserve in 2000, reserve out 1000
    // 100 * 997 * 1000 / (2000 * 1000 + 99700) = 99700000 / 2099700
    let out = p.simulate_swap(weth(), U256::from(100u64)).unwrap();
    assert_eq!(out, U256::from(47u64));
}

#[test]
fn swap_output_zero_cases() {
    let p = pool(1000, 2000, 18, 18, 300);
    assert_eq!(p.simulate_swap(usdc(), U256::zero()).unwrap(), U256::zero());
    let empty_in = pool(0, 2000, 18, 18, 300);
    assert_eq!(empty_in.simulate_swap(usdc(), U256::from(100u64)).unwrap(), U256::zero());
    let empty_out = pool(1000, 0, 18, 18, 300);
    assert_eq!(empty_out.simulate_swap(usdc(), U256::from(100u64)).unwrap(), U256::zero());
    assert_eq!(
        p.get_amount_out(U256::from(5u64), U256::zero(), U256::from(7u64)).unwrap(),
        U256::zero()
    );
}

#[test]
fn swap_output_monotone_and_below_reserve() {
    let p = pool(1_000_000, 5_000_000, 18, 18, 300);
    let mut last = U256::zero();
    for amount in [1u64, 10, 1_000, 100_000, 1_000_000, 1_000_000_000, u64::MAX] {
        let out = p.simulate_swap(usdc(), U256::from(amount)).unwrap();
        assert!(out >= last);
        assert!(out < U256::from(5_000_000u64));
        last = out;
    }
}

#[test]
fn swap_fee_factor_from_basis_points() {
    // fee 0 gives factor 1000: 100 * 1000 * 1000 / (1000 * 1000 + 100000) = 90
    let p = pool(1000, 1000, 18, 18, 0);
    assert_eq!(p.simulate_swap(usdc(), U256::from(100u64)).unwrap(), U256::from(90u64));
}

#[test]
fn swap_invalid_fee() {
    let p = pool(1000, 2000, 18, 18, 200_000);
    assert_eq!(
        p.simulate_swap(usdc(), U256::from(100u64)),
        Err(SwapSimulationError::InvalidFee)
    );
}

#[test]
fn swap_overflow() {
    let p = pool(1000, 2000, 18, 18, 300);
    // 2000 * t / (1000 * 1000 + t) with t = (2^256 - 1) * 997 rounds down to 1999
    assert_eq!(p.simulate_swap(usdc(), U256::MAX), Ok(U256::from(1999u64)));
}

#[test]
fn swap_with_wide_reserves_and_amounts() {
    let r = 1u128 << 111;
    let p = pool(r, r, 18, 18, 300);
    let big = U256::from(u128::MAX) * U256::from(u128::MAX);
    let mut last = U256::zero();
    for amount in [U256::from(1u64), U256::from(u128::MAX), big, U256::MAX] {
        let out = p.simulate_swap(usdc(), amount).unwrap();
        assert!(out >= last);
        assert!(out < U256::from(r));
        last = out;
    }
    // 2^111 * t / (2^111 * 1000 + t) with t = 997 * 2^256 - 997 is 2^111 - 1 after rounding
    assert_eq!(last, U256::from(r - 1));
}

#[test]
fn populated_pool() {
    assert!(pool(1, 1, 6, 18, 300).data_is_populated());
    assert!(!pool(0, 1, 6, 18, 300).data_is_populated());
    assert!(!pool(1, 0, 6, 18, 300).data_is_populated());
    let mut p = pool(1, 1, 6, 18, 300);
    p.token_b = H160::zero();
    assert!(!p.data_is_populated());
}

#[test]
fn price_same_decimals() {
    let p = pool(1000, 2000, 18, 18, 300);
    assert_eq!(p.calculate_price_64_x_64(usdc()), Ok(2 * Q64_ONE));
    assert_eq!(p.calculate_price_64_x_64(weth()), Ok(Q64_ONE / 2));
}

#[test]
fn price_with_decimal_shift() {
    // 2000 USDC (6 decimals) against 1 WETH (18 decimals)
    let p = pool(2_000_000_000, 1_000_000_000_000_000_000, 6, 18, 300);
    assert_eq!(p.calculate_price_64_x_64(weth()), Ok(2000 * Q64_ONE));
    // 1e18 * 2^64 / 2e21, rounded down
    assert_eq!(p.calculate_price_64_x_64(usdc()), Ok(9223372036854775));
}

#[test]
fn price_zero_base_reserve_is_one() {
    let p = pool(0, 2000, 18, 18, 300);
    assert_eq!(p.calculate_price_64_x_64(usdc()), Ok(Q64_ONE));
    let q = pool(2000, 0, 18, 18, 300);
    assert_eq!(q.calculate_price_64_x_64(weth()), Ok(Q64_ONE));
}

#[test]
fn price_overflow() {
    // the quotient needs more than 128 bits
    let p = pool(1, u128::MAX, 18, 18, 300);
    assert_eq!(p.calculate_price_64_x_64(usdc()), Err(ArithmeticError::Overflow));
    // ten to the 255th does not fit in 256 bits: on the base side the price
    // rounds to zero, on the other side it overflows
    let q = pool(1, 1, 0, 255, 300);
    assert_eq!(q.calculate_price_64_x_64(usdc()), Ok(0));
    assert_eq!(q.calculate_price_64_x_64(weth()), Err(ArithmeticError::Overflow));
}

#[test]
fn price_zero_base_reserve_with_wide_scaling() {
    let p = pool(1, 0, 0, 78, 300);
    assert_eq!(p.calculate_price_64_x_64(weth()), Ok(Q64_ONE));
    assert_eq!(p.calculate_price_64_x_64(usdc()), Ok(0));
}

#[test]
fn prices_are_reciprocal() {
    let p = pool(2_000_000_000, 1_000_000_000_000_000_000, 6, 18, 300);
    let a = q64_to_f64(p.calculate_price_64_x_64(usdc()).unwrap());
    let b = q64_to_f64(p.calculate_price_64_x_64(weth()).unwrap());
    assert!((a - 1.0 / b).abs() < 1e-12);
    let q = pool(123_456_789, 987_654_321_000, 18, 18, 300);
    let a = q64_to_f64(q.calculate_price_64_x_64(usdc()).unwrap());
    let b = q64_to_f64(q.calculate_price_64_x_64(weth()).unwrap());
    assert!((a * b - 1.0).abs() < 1e-9);
}

#[test]
fn div_uu_values() {
    assert_eq!(div_uu(U256::from(1u64), U256::from(3u64)), Ok(6148914691236517205));
    assert_eq!(div_uu(U256::from(3u64), U256::from(2u64)), Ok(Q64_ONE + Q64_ONE / 2));
    assert_eq!(div_uu(U256::from(7u64), U256::zero()), Err(ArithmeticError::DivisionByZero));
    assert_eq!(div_uu(U256::from(Q64_ONE), U256::from(1u64)), Err(ArithmeticError::Overflow));
    assert_eq!(div_uu(U256::from(Q64_ONE - 1), U256::from(1u64)), Ok((Q64_ONE - 1) * Q64_ONE));
    // a numerator above 2^192
    let x = U256::from(1u64) << 200;
    let y = U256::from(1u64) << 190;
    assert_eq!(div_uu(x, y), Ok(1u128 << 74));
}

#[test]
fn scale_by_powers_of_ten() {
    assert_eq!(scale_pow10(U256::from(5u64), 3), Some(U256::from(5000u64)));
    assert_eq!(scale_pow10(U256::from(5u64), 0), Some(U256::from(5u64)));
    assert_eq!(scale_pow10(U256::zero(), 255), Some(U256::zero()));
    assert_eq!(scale_pow10(U256::from(1u64), 78), None);
    assert_eq!(scale_pow10(U256::MAX, 1), None);
}

#[test]
fn swap_calldata_layout() {
    let p = pool(1000, 2000, 6, 18, 300);
    let to = addr("0xdfC9F6651b27Fe326D61052979e6d8b90774240d");
    let data = p.swap_calldata(U256::from(10000u64), U256::zero(), to, vec![]);
    let selector = ethers::utils::id("swap(uint256,uint256,address,bytes)");
    assert_eq!(&data[..4], &selector[..]);
    let args = ethers::abi::encode(&[
        ethers::abi::Token::Uint(U256::from(10000u64)),
        ethers::abi::Token::Uint(U256::zero()),
        ethers::abi::Token::Address(to),
        ethers::abi::Token::Bytes(vec![]),
    ]);
    assert_eq!(&data[4..], &args[..]);
    assert_eq!(data.len(), 4 + 5 * 32);
    assert_eq!(data[4 + 31], 0x10);
    assert_eq!(data[4 + 30], 0x27);
}

#[test]
fn swap_calldata_with_bytes() {
    let p = pool(1000, 2000, 6, 18, 300);
    let to = addr("0xdfC9F6651b27Fe326D61052979e6d8b90774240d");
    let payload: Vec<u8> = (1..=33).collect();
    let data = p.swap_calldata(U256::from(1u64), U256::from(2u64), to, payload.clone());
    let args = &data[4..];
    assert_eq!(args.len(), 4 * 32 + 32 + 64);
    assert_eq!(args[31], 1);
    assert_eq!(args[63], 2);
    assert_eq!(&args[64..76], &[0u8; 12]);
    assert_eq!(&args[76..96], to.as_bytes());
    assert_eq!(args[127], 0x80);
    assert_eq!(args[159], 33);
    assert_eq!(&args[160..193], &payload[..]);
    assert_eq!(&args[193..], &[0u8; 31]);
}
