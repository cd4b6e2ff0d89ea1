//! One constant-product pool: its identity, token pair, decimals, reserves and
//! fee, with swap simulation and price derivation.
use vstd::prelude::*;

use crate::math::{
    div_uu, div_uu_result, lemma_pow10_pos, pow10, scale_pow10, ArithmeticError, Q64_ONE,
};
use crate::wide::{
    addresses_equal, is_zero_address, lemma_u256_bound, pow128, pow64, same_address, u256_val,
    wide_limit, word_limit,
};

verus! {

/// Why a swap cannot be simulated.
#[derive(Debug, Clone, Copy, PartialEq, Eq, Structural)]
pub enum SwapSimulationError {
    /// `fee / 10` exceeds 10000, that is the fee is above 100009 basis
    /// points, so the fee factor `(10000 - fee / 10) / 10` does not exist.
    InvalidFee,
}

/// A constant-product pool as read from the chain at one moment.
#[derive(Debug, Clone, Copy, Default, PartialEq, Eq)]
pub struct UniswapV2Pool {
    pub address: ethers::types::H160,
    pub token_a: ethers::types::H160,
    pub token_a_decimals: u8,
    pub token_b: ethers::types::H160,
    pub token_b_decimals: u8,
    pub reserve_0: u128,
    pub reserve_1: u128,
    /// Trading fee in basis points (300 = 0.30%).
    pub fee: u32,
}

/// A pool is populated when both tokens and both reserves are non-zero.
pub open spec fn populated(p: UniswapV2Pool) -> bool {
    !is_zero_address(p.token_a) && !is_zero_address(p.token_b) && p.reserve_0 != 0 && p.reserve_1
        != 0
}

/// The fee factor on a 1000 denominator: 300 basis points give 997.
pub open spec fn fee_factor(fee: u32) -> nat
    recommends
        fee / 10 <= 10000,
{
    ((10000 - fee / 10) / 10) as nat
}

/// The constant-product output for an input, before any width limit.
pub open spec fn quote(amount_in: nat, reserve_in: nat, reserve_out: nat, factor: nat) -> nat {
    if amount_in == 0 || reserve_in == 0 || reserve_out == 0 {
        0
    } else {
        (amount_in * factor * reserve_out) / (reserve_in * 1000 + amount_in * factor)
    }
}

/// What `get_amount_out` returns: zero for a zero input or reserve, else the
/// quote, unless `fee / 10` exceeds 10000.
pub open spec fn amount_out_result(
    fee: u32,
    amount_in: nat,
    reserve_in: nat,
    reserve_out: nat,
) -> Result<nat, SwapSimulationError> {
    if amount_in == 0 || reserve_in == 0 || reserve_out == 0 {
        Ok(0)
    } else if fee / 10 > 10000 {
        Err(SwapSimulationError::InvalidFee)
    } else {
        Ok(quote(amount_in, reserve_in, reserve_out, fee_factor(fee)))
    }
}

/// A word result matches a result over naturals.
pub open spec fn word_result_matches(
    r: Result<ethers::types::U256, SwapSimulationError>,
    s: Result<nat, SwapSimulationError>,
) -> bool {
    match (r, s) {
        (Ok(v), Ok(n)) => u256_val(v) == n,
        (Err(e), Err(f)) => e == f,
        _ => false,
    }
}

/// The reserves after the one of the token with fewer decimals is multiplied
/// by ten to the difference.
pub open spec fn scaled_reserves(p: UniswapV2Pool) -> (nat, nat) {
    if p.token_a_decimals < p.token_b_decimals {
        (
            p.reserve_0 as nat * pow10((p.token_b_decimals - p.token_a_decimals) as nat),
            p.reserve_1 as nat,
        )
    } else {
        (
            p.reserve_0 as nat,
            p.reserve_1 as nat * pow10((p.token_a_decimals - p.token_b_decimals) as nat),
        )
    }
}

/// What `calculate_price_64_x_64` returns: the other scaled reserve over the
/// base token's, in 64.64 fixed point, over unbounded integers; 1.0 when the
/// base reserve is zero.
pub open spec fn price_result(p: UniswapV2Pool, base_is_a: bool) -> Result<u128, ArithmeticError> {
    let (s0, s1) = scaled_reserves(p);
    let (num, den) = if base_is_a {
        (s1, s0)
    } else {
        (s0, s1)
    };
    if den == 0 {
        Ok(Q64_ONE)
    } else {
        div_uu_result(num, den)
    }
}

/// The quote never falls as the input grows, and never reaches the output
/// reserve: for positive reserves, a larger input yields at least as much,
/// and every input yields strictly less than `reserve_out`.
pub proof fn lemma_quote_monotone_and_bounded(
    a1: nat,
    a2: nat,
    reserve_in: nat,
    reserve_out: nat,
    factor: nat,
)
    requires
        a1 <= a2,
        reserve_in > 0,
        reserve_out > 0,
    ensures
        quote(a1, reserve_in, reserve_out, factor) <= quote(a2, reserve_in, reserve_out, factor),
        quote(a2, reserve_in, reserve_out, factor) < reserve_out,
{
    let k = reserve_in * 1000;
    lemma_quote_below_reserve(a2, reserve_in, reserve_out, factor);
    if a1 > 0 {
        let t1 = a1 * factor;
        let t2 = a2 * factor;
        assert(t1 <= t2) by (nonlinear_arith)
            requires
                a1 <= a2,
                t1 == a1 * factor,
                t2 == a2 * factor,
        ;
        let x1 = t1 * reserve_out;
        let y1 = k + t1;
        let x2 = t2 * reserve_out;
        let y2 = k + t2;
        assert(x1 == a1 * factor * reserve_out);
        assert(x2 == a2 * factor * reserve_out);
        assert(k > 0) by (nonlinear_arith)
            requires
                reserve_in > 0,
                k == reserve_in * 1000,
        ;
        let q1 = x1 / y1;
        assert(q1 * y1 <= x1) by (nonlinear_arith)
            requires
                y1 > 0,
                q1 == x1 / y1,
        ;
        assert(x1 * y2 <= x2 * y1) by (nonlinear_arith)
            requires
                x1 == t1 * reserve_out,
                x2 == t2 * reserve_out,
                y1 == k + t1,
                y2 == k + t2,
                t1 <= t2,
                k >= 0,
                reserve_out >= 0,
        ;
        assert(q1 <= x2 / y2) by (nonlinear_arith)
            requires
                q1 * y1 <= x1,
                x1 * y2 <= x2 * y1,
                y1 > 0,
                y2 > 0,
                q1 >= 0,
        ;
    }
}

proof fn lemma_quote_below_reserve(a: nat, reserve_in: nat, reserve_out: nat, factor: nat)
    requires
        reserve_in > 0,
        reserve_out > 0,
    ensures
        quote(a, reserve_in, reserve_out, factor) < reserve_out,
{
    if a > 0 {
        let t = a * factor;
        let k = reserve_in * 1000;
        let x = t * reserve_out;
        let y = k + t;
        assert(x == a * factor * reserve_out);
        assert(k > 0) by (nonlinear_arith)
            requires
                reserve_in > 0,
                k == reserve_in * 1000,
        ;
        let q = x / y;
        assert(q * y <= x) by (nonlinear_arith)
            requires
                y > 0,
                q == x / y,
        ;
        assert(q < reserve_out) by (nonlinear_arith)
            requires
                q * y <= x,
                x == t * reserve_out,
                y == k + t,
                k > 0,
                t >= 0,
                q >= 0,
                reserve_out > 0,
        ;
    }
}

/// For positive reserves and a fee of at most 100%, every input gives an
/// output, a larger input gives at least as much, and no output reaches the
/// output reserve.
pub proof fn lemma_swap_monotone_and_bounded(
    fee: u32,
    a1: nat,
    a2: nat,
    reserve_in: nat,
    reserve_out: nat,
)
    requires
        a1 <= a2,
        reserve_in > 0,
        reserve_out > 0,
        fee / 10 <= 10000,
    ensures
        amount_out_result(fee, a1, reserve_in, reserve_out) is Ok,
        amount_out_result(fee, a2, reserve_in, reserve_out) is Ok,
        amount_out_result(fee, a1, reserve_in, reserve_out)->Ok_0 <= amount_out_result(
            fee,
            a2,
            reserve_in,
            reserve_out,
        )->Ok_0,
        amount_out_result(fee, a2, reserve_in, reserve_out)->Ok_0 < reserve_out,
{
    lemma_quote_monotone_and_bounded(a1, a2, reserve_in, reserve_out, fee_factor(fee));
    lemma_quote_below_reserve(a1, reserve_in, reserve_out, fee_factor(fee));
}

/// The swap output is zero when the input, the input reserve or the output
/// reserve is zero.
pub proof fn lemma_swap_zero_cases(fee: u32, amount_in: nat, reserve_in: nat, reserve_out: nat)
    requires
        amount_in == 0 || reserve_in == 0 || reserve_out == 0,
    ensures
        amount_out_result(fee, amount_in, reserve_in, reserve_out) == Ok::<
            nat,
            SwapSimulationError,
        >(0),
{
}

/// The two prices of a pool are reciprocal in 64.64 fixed point, up to
/// rounding: when both base reserves are non-zero and both prices exist,
/// their product is at most 2^128 (1.0 times 1.0), and rounding each up by
/// one unit would take it above.
pub proof fn lemma_prices_reciprocal(p: UniswapV2Pool)
    requires
        scaled_reserves(p).0 > 0,
        scaled_reserves(p).1 > 0,
        price_result(p, true) is Ok,
        price_result(p, false) is Ok,
    ensures
        price_result(p, true)->Ok_0 * price_result(p, false)->Ok_0 <= pow128(),
        (price_result(p, true)->Ok_0 + 1) * (price_result(p, false)->Ok_0 + 1) > pow128(),
{
    let (s0, s1) = scaled_reserves(p);
    let m = pow64();
    let qa = price_result(p, true)->Ok_0 as int;
    let qb = price_result(p, false)->Ok_0 as int;
    assert(qa == (s1 * m) / s0);
    assert(qb == (s0 * m) / s1);
    lemma_floor_bounds((s1 * m) as int, s0 as int, qa);
    lemma_floor_bounds((s0 * m) as int, s1 as int, qb);
    assert(qa * qb <= m * m) by (nonlinear_arith)
        requires
            qa * s0 <= s1 * m,
            qb * s1 <= s0 * m,
            s0 > 0,
            s1 > 0,
            qa >= 0,
            qb >= 0,
    ;
    assert((qa + 1) * (qb + 1) > m * m) by (nonlinear_arith)
        requires
            (qa + 1) * s0 > s1 * m,
            (qb + 1) * s1 > s0 * m,
            s0 > 0,
            s1 > 0,
            m > 0,
            qa >= 0,
            qb >= 0,
    ;
}

proof fn lemma_floor_bounds(x: int, d: int, q: int)
    requires
        d > 0,
        x >= 0,
        q == x / d,
    ensures
        q * d <= x < (q + 1) * d,
{
    vstd::arithmetic::div_mod::lemma_fundamental_div_mod(x, d);
    assert(q * d == d * q) by (nonlinear_arith);
    assert((q + 1) * d == d * q + d) by (nonlinear_arith);
}

/// `256^k`.
pub open spec fn pow256(k: nat) -> nat
    decreases k,
{
    if k == 0 {
        1
    } else {
        256 * pow256((k - 1) as nat)
    }
}

/// The 32-byte big-endian word of `n`.
pub open spec fn be_word(n: nat) -> Seq<u8> {
    Seq::new(32, |i: int| ((n / pow256((31 - i) as nat)) % 256) as u8)
}

/// `n` zero bytes.
pub open spec fn zero_bytes(n: nat) -> Seq<u8> {
    Seq::new(n, |i: int| 0u8)
}

/// The ABI encoding of the arguments of `swap(uint256,uint256,address,bytes)`:
/// four head words (the two amounts, the address left-padded with zeros, and
/// the offset 0x80 of the bytes), then the length of the bytes, then the
/// bytes, right-padded with zeros to a multiple of 32.
pub open spec fn swap_args_encoding(
    amount_0_out: nat,
    amount_1_out: nat,
    to: Seq<u8>,
    data: Seq<u8>,
) -> Seq<u8> {
    be_word(amount_0_out) + be_word(amount_1_out) + zero_bytes(12) + to + be_word(0x80) + be_word(
        data.len(),
    ) + data + zero_bytes(((32 - data.len() % 32) % 32) as nat)
}

/// The longest bytes argument that the encoder takes: it sums the sizes of
/// the encoding in `u32`, which would overflow for longer bytes.
pub const MAX_CALLDATA_LEN: usize = 0xFFFF_FF40;

/// Relies on `ethers::abi::encode` (ethabi's encoder): the standard ABI
/// encoding of the four arguments, heads first, then the one dynamic tail.
#[verifier::external_body]
fn encode_swap_args(
    amount_0_out: ethers::types::U256,
    amount_1_out: ethers::types::U256,
    to: ethers::types::H160,
    data: Vec<u8>,
) -> (r: Vec<u8>)
    requires
        data@.len() <= MAX_CALLDATA_LEN,
    ensures
        r@ == swap_args_encoding(u256_val(amount_0_out), u256_val(amount_1_out), to.0@, data@),
{
    ethers::abi::encode(
        &[
            ethers::abi::Token::Uint(amount_0_out),
            ethers::abi::Token::Uint(amount_1_out),
            ethers::abi::Token::Address(to),
            ethers::abi::Token::Bytes(data),
        ],
    )
}

/// The signature of the pair's `swap` function.
pub const SWAP_SIGNATURE: &'static str = "swap(uint256,uint256,address,bytes)";

/// The four-byte selector of a function signature.
pub uninterp spec fn selector_of(signature: Seq<char>) -> Seq<u8>;

/// Relies on `ethers::utils::id`: the first four bytes of the Keccak-256 hash
/// of the signature, which depend on the signature alone.
#[verifier::external_body]
fn function_selector(signature: &str) -> (r: Vec<u8>)
    ensures
        r@ == selector_of(signature@),
        r@.len() == 4,
{
    ethers::utils::id(signature).to_vec()
}

impl UniswapV2Pool {
    #[allow(clippy::too_many_arguments)]
    pub fn new(
        address: ethers::types::H160,
        token_a: ethers::types::H160,
        token_a_decimals: u8,
        token_b: ethers::types::H160,
        token_b_decimals: u8,
        reserve_0: u128,
        reserve_1: u128,
        fee: u32,
    ) -> (r: UniswapV2Pool)
        ensures
            r == (UniswapV2Pool {
                address,
                token_a,
                token_a_decimals,
                token_b,
                token_b_decimals,
                reserve_0,
                reserve_1,
                fee,
            }),
    {
        UniswapV2Pool {
            address,
            token_a,
            token_a_decimals,
            token_b,
            token_b_decimals,
            reserve_0,
            reserve_1,
            fee,
        }
    }

    /// Whether both tokens and both reserves are non-zero.
    pub fn data_is_populated(&self) -> (r: bool)
        ensures
            r == populated(*self),
    {
        !(self.token_a.is_zero() || self.token_b.is_zero() || self.reserve_0 == 0
            || self.reserve_1 == 0)
    }

    /// The output of selling `amount_in` of `token_in`: the reserve of
    /// `token_a` is the input side when `token_in` is `token_a`, else the
    /// reserve of `token_b` is.
    pub fn simulate_swap(
        &self,
        token_in: ethers::types::H160,
        amount_in: ethers::types::U256,
    ) -> (r: Result<ethers::types::U256, SwapSimulationError>)
        ensures
            same_address(token_in, self.token_a) ==> word_result_matches(
                r,
                amount_out_result(
                    self.fee,
                    u256_val(amount_in),
                    self.reserve_0 as nat,
                    self.reserve_1 as nat,
                ),
            ),
            !same_address(token_in, self.token_a) ==> word_result_matches(
                r,
                amount_out_result(
                    self.fee,
                    u256_val(amount_in),
                    self.reserve_1 as nat,
                    self.reserve_0 as nat,
                ),
            ),
    {
        if addresses_equal(&self.token_a, &token_in) {
            self.get_amount_out(
                amount_in,
                ethers::types::U256::from(self.reserve_0),
                ethers::types::U256::from(self.reserve_1),
            )
        } else {
            self.get_amount_out(
                amount_in,
                ethers::types::U256::from(self.reserve_1),
                ethers::types::U256::from(self.reserve_0),
            )
        }
    }

    /// `floor(amount_in * f * reserve_out / (reserve_in * 1000 + amount_in * f))`
    /// with `f` the fee factor of this pool, computed on 512-bit words so that
    /// no amount overflows. A reserve is a pool field, below 2^128.
    pub fn get_amount_out(
        &self,
        amount_in: ethers::types::U256,
        reserve_in: ethers::types::U256,
        reserve_out: ethers::types::U256,
    ) -> (r: Result<ethers::types::U256, SwapSimulationError>)
        requires
            u256_val(reserve_in) < pow128(),
            u256_val(reserve_out) < pow128(),
        ensures
            word_result_matches(
                r,
                amount_out_result(
                    self.fee,
                    u256_val(amount_in),
                    u256_val(reserve_in),
                    u256_val(reserve_out),
                ),
            ),
    {
        if amount_in.is_zero() || reserve_in.is_zero() || reserve_out.is_zero() {
            return Ok(ethers::types::U256::zero());
        }
        if self.fee / 10 > 10000 {
            return Err(SwapSimulationError::InvalidFee);
        }
        let factor: u32 = (10000 - self.fee / 10) / 10;
        let ghost a = u256_val(amount_in);
        let ghost rin = u256_val(reserve_in);
        let ghost rout = u256_val(reserve_out);
        let ghost f = fee_factor(self.fee);
        proof {
            lemma_u256_bound(amount_in);
        }
        let with_fee = amount_in.full_mul(ethers::types::U256::from(factor as u128));
        let wide_out = ethers::types::U512::from(reserve_out);
        proof {
            assert(a * f * rout < wide_limit()) by (nonlinear_arith)
                requires
                    a < word_limit(),
                    f <= 1000,
                    rout < pow128(),
                    word_limit() == pow128() * pow128(),
                    pow128() > 1000,
                    wide_limit() == word_limit() * word_limit(),
            ;
        }
        let numerator = with_fee.checked_mul(wide_out).unwrap();
        let scaled_in = reserve_in.full_mul(ethers::types::U256::from(1000u128));
        proof {
            assert(rin * 1000 + a * f < wide_limit()) by (nonlinear_arith)
                requires
                    a < word_limit(),
                    f <= 1000,
                    rin < pow128(),
                    word_limit() == pow128() * pow128(),
                    pow128() > 2000,
                    wide_limit() == word_limit() * word_limit(),
            ;
            assert(rin * 1000 + a * f > 0) by (nonlinear_arith)
                requires
                    rin >= 1,
                    a * f >= 0,
            ;
        }
        let denominator = scaled_in.checked_add(with_fee).unwrap();
        let (q, _) = numerator.div_mod(denominator);
        proof {
            lemma_quote_below_reserve(a, rin, rout, f);
        }
        Ok(ethers::types::U256::from(q.low_u128()))
    }

    /// The price of `base_token` in the other token, as a 64.64 fixed-point
    /// number, after both reserves are brought to the same decimals.
    ///
    /// A scaled reserve may need more than 256 bits. On the base side the
    /// price is then below 2^-64 and rounds to zero; on the other side it is
    /// at least 2^192 and overflows.
    pub fn calculate_price_64_x_64(&self, base_token: ethers::types::H160) -> (r: Result<
        u128,
        ArithmeticError,
    >)
        ensures
            r == price_result(*self, same_address(base_token, self.token_a)),
    {
        let base_is_a = addresses_equal(&base_token, &self.token_a);
        let (shift, scale_a) = if self.token_a_decimals < self.token_b_decimals {
            (self.token_b_decimals - self.token_a_decimals, true)
        } else {
            (self.token_a_decimals - self.token_b_decimals, false)
        };
        let (base_raw, other_raw) = if base_is_a {
            (self.reserve_0, self.reserve_1)
        } else {
            (self.reserve_1, self.reserve_0)
        };
        let ghost (s0, s1) = scaled_reserves(*self);
        let ghost num = if base_is_a { s1 } else { s0 };
        let ghost den = if base_is_a { s0 } else { s1 };
        proof {
            lemma_pow10_pos(shift as nat);
            assert(base_raw as nat * pow10(shift as nat) >= base_raw) by (nonlinear_arith)
                requires
                    pow10(shift as nat) >= 1,
            ;
            assert(other_raw as nat * pow10(shift as nat) >= other_raw) by (nonlinear_arith)
                requires
                    pow10(shift as nat) >= 1,
            ;
            assert(base_raw == 0 ==> base_raw as nat * pow10(shift as nat) == 0) by (
            nonlinear_arith);
        }
        if base_raw == 0 {
            return Ok(Q64_ONE);
        }
        let base = ethers::types::U256::from(base_raw);
        let other = ethers::types::U256::from(other_raw);
        let base_is_scaled = scale_a == base_is_a;
        if base_is_scaled {
            match scale_pow10(base, shift as u32) {
                Some(d) => div_uu(other, d),
                None => {
                    proof {
                        // num * 2^64 < 2^192 < 2^256 <= den
                        assert(num * pow64() < den) by (nonlinear_arith)
                            requires
                                num < pow128(),
                                den >= word_limit(),
                                word_limit() == pow128() * pow128(),
                                pow128() == pow64() * pow64(),
                                pow64() > 1,
                        ;
                        vstd::arithmetic::div_mod::lemma_basic_div(
                            (num * pow64()) as int,
                            den as int,
                        );
                    }
                    Ok(0)
                },
            }
        } else {
            match scale_pow10(other, shift as u32) {
                Some(n) => div_uu(n, base),
                None => {
                    proof {
                        // num * 2^64 / den >= 2^256 * 2^64 / 2^128 >= 2^128
                        assert(pow128() * den <= num * pow64()) by (nonlinear_arith)
                            requires
                                num >= word_limit(),
                                den < pow128(),
                                word_limit() == pow128() * pow128(),
                                pow64() >= 1,
                        ;
                        vstd::arithmetic::div_mod::lemma_div_is_ordered(
                            (pow128() * den) as int,
                            (num * pow64()) as int,
                            den as int,
                        );
                        vstd::arithmetic::div_mod::lemma_div_multiples_vanish(
                            pow128() as int,
                            den as int,
                        );
                        assert(den * pow128() == pow128() * den) by (nonlinear_arith);
                    }
                    Err(ArithmeticError::Overflow)
                },
            }
        }
    }

    /// The call data of the pair's `swap`: the selector of its signature,
    /// then the encoded arguments.
    pub fn swap_calldata(
        &self,
        amount_0_out: ethers::types::U256,
        amount_1_out: ethers::types::U256,
        to: ethers::types::H160,
        calldata: Vec<u8>,
    ) -> (r: Vec<u8>)
        requires
            calldata@.len() <= MAX_CALLDATA_LEN,
        ensures
            r@ == selector_of(SWAP_SIGNATURE@) + swap_args_encoding(
                u256_val(amount_0_out),
                u256_val(amount_1_out),
                to.0@,
                calldata@,
            ),
    {
        let mut out = function_selector(SWAP_SIGNATURE);
        let mut args = encode_swap_args(amount_0_out, amount_1_out, to, calldata);
        out.append(&mut args);
        out
    }
}

} // verus!
