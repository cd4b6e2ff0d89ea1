//! Fixed-point arithmetic on 256-bit words: 64.64 quotients and decimal
//! scaling.
use vstd::arithmetic::div_mod::{
    lemma_div_is_ordered, lemma_div_multiples_vanish, lemma_fundamental_div_mod,
    lemma_fundamental_div_mod_converse,
};
use vstd::arithmetic::power2::{lemma2_to64, lemma2_to64_rest, lemma_pow2_unfold, pow2};
use vstd::prelude::*;

use crate::wide::{fits_u128, pow128, pow64, u256_val, word_limit};

verus! {

/// 1.0 in 64.64 fixed point.
pub const Q64_ONE: u128 = 0x1_0000_0000_0000_0000;

/// Why a fixed-point computation has no result.
#[derive(Debug, Clone, Copy, PartialEq, Eq, Structural)]
pub enum ArithmeticError {
    /// The divisor was zero.
    DivisionByZero,
    /// The result does not fit in its type.
    Overflow,
}

/// The 64.64 fixed-point quotient `x / y`, rounded down.
pub open spec fn q64_quotient(x: nat, y: nat) -> nat
    recommends
        y != 0,
{
    x * pow64() / y
}

/// What `div_uu` returns for two word values.
pub open spec fn div_uu_result(x: nat, y: nat) -> Result<u128, ArithmeticError> {
    if y == 0 {
        Err(ArithmeticError::DivisionByZero)
    } else if q64_quotient(x, y) < pow128() {
        Ok(q64_quotient(x, y) as u128)
    } else {
        Err(ArithmeticError::Overflow)
    }
}

/// `10^n`.
pub open spec fn pow10(n: nat) -> nat
    decreases n,
{
    if n == 0 {
        1
    } else {
        10 * pow10((n - 1) as nat)
    }
}

proof fn lemma_pow10_grows(x: nat, k: nat, n: nat)
    requires
        k <= n,
    ensures
        x * pow10(k) <= x * pow10(n),
        pow10(k) >= 1,
    decreases n - k,
{
    if k < n {
        lemma_pow10_grows(x, k + 1, n);
        assert(pow10(k + 1) == 10 * pow10(k));
        assert(x * pow10(k) <= x * pow10(k + 1)) by (nonlinear_arith)
            requires
                pow10(k + 1) == 10 * pow10(k),
                pow10(k) >= 0,
        ;
    } else {
        lemma_pow10_pos(k);
    }
}

/// Every power of ten is at least one.
pub proof fn lemma_pow10_pos(n: nat)
    ensures
        pow10(n) >= 1,
    decreases n,
{
    if n > 0 {
        lemma_pow10_pos((n - 1) as nat);
    }
}

/// Multiplies `x` by `10^n`; `None` when the product does not fit in 256 bits.
pub fn scale_pow10(x: ethers::types::U256, n: u32) -> (r: Option<ethers::types::U256>)
    ensures
        r.is_some() == (u256_val(x) * pow10(n as nat) < word_limit()),
        r.is_some() ==> u256_val(r.unwrap()) == u256_val(x) * pow10(n as nat),
{
    let ten = ethers::types::U256::from(10u128);
    let mut cur = x;
    let mut k: u32 = 0;
    proof {
        assert(pow10(0) == 1);
        assert(u256_val(x) * 1 == u256_val(x));
    }
    while k < n
        invariant
            k <= n,
            u256_val(ten) == 10,
            u256_val(cur) == u256_val(x) * pow10(k as nat),
        decreases n - k,
    {
        proof {
            assert(pow10((k + 1) as nat) == 10 * pow10(k as nat));
            assert(u256_val(cur) * 10 == u256_val(x) * pow10((k + 1) as nat)) by (nonlinear_arith)
                requires
                    u256_val(cur) == u256_val(x) * pow10(k as nat),
                    pow10((k + 1) as nat) == 10 * pow10(k as nat),
            ;
        }
        match cur.checked_mul(ten) {
            Some(next) => {
                cur = next;
            },
            None => {
                proof {
                    lemma_pow10_grows(u256_val(x), (k + 1) as nat, n as nat);
                }
                return None;
            },
        }
        k = k + 1;
    }
    proof {
        crate::wide::lemma_u256_bound(cur);
    }
    Some(cur)
}

/// Divides two words and returns the quotient as a 64.64 fixed-point number,
/// rounded down: `floor(x * 2^64 / y)`.
///
/// The integer part comes from one division. The 64 fraction bits come from a
/// long division of the remainder, one bit at a time; since the remainder
/// stays below `y`, no intermediate value needs more than 256 bits.
pub fn div_uu(x: ethers::types::U256, y: ethers::types::U256) -> (r: Result<u128, ArithmeticError>)
    ensures
        r == div_uu_result(u256_val(x), u256_val(y)),
{
    if y.is_zero() {
        return Err(ArithmeticError::DivisionByZero);
    }
    let ghost xv = u256_val(x);
    let ghost yv = u256_val(y);
    let (q1, r0) = x.div_mod(y);
    proof {
        lemma_fundamental_div_mod(xv as int, yv as int);
        assert(xv == yv * u256_val(q1) + u256_val(r0));
        assert(u256_val(r0) < yv);
    }
    if !fits_u128(&q1) || q1.as_u128() >= Q64_ONE {
        proof {
            // x * 2^64 / y >= q1 * 2^64 >= 2^128
            let q = u256_val(q1);
            assert(q >= pow64());
            assert(q * pow64() * yv <= xv * pow64()) by (nonlinear_arith)
                requires
                    xv == yv * q + u256_val(r0),
                    u256_val(r0) >= 0,
                    pow64() > 0,
            ;
            lemma_div_is_ordered((q * pow64() * yv) as int, (xv * pow64()) as int, yv as int);
            lemma_div_multiples_vanish(q * pow64() as int, yv as int);
            assert((yv * (q * pow64())) == q * pow64() * yv) by (nonlinear_arith);
            assert(q * pow64() >= pow128()) by (nonlinear_arith)
                requires
                    q >= pow64(),
                    pow128() == pow64() * pow64(),
            ;
        }
        return Err(ArithmeticError::Overflow);
    }
    let hi: u128 = q1.as_u128();
    let mut acc: u128 = 0;
    let mut rem = r0;
    let mut k: u32 = 0;
    proof {
        assert(pow2(0) == 1) by {
            lemma2_to64();
        }
    }
    while k < 64
        invariant
            k <= 64,
            yv == u256_val(y),
            yv > 0,
            u256_val(rem) < yv,
            acc < pow2(k as nat),
            u256_val(r0) * pow2(k as nat) == acc * yv + u256_val(rem),
        decreases 64 - k,
    {
        proof {
            lemma_pow2_unfold((k + 1) as nat);
            lemma2_to64();
            if k < 63 {
                crate::math::lemma_pow2_le_63(k as nat);
            }
            assert(pow2(k as nat) <= pow2(63));
            lemma2_to64_rest();
            assert(acc < 0x8000_0000_0000_0000);
        }
        let d = y.checked_sub(rem).unwrap();
        match rem.checked_sub(d) {
            Some(t) => {
                proof {
                    assert(u256_val(r0) * pow2((k + 1) as nat) == (2 * acc + 1) * yv + u256_val(t))
                        by (nonlinear_arith)
                        requires
                            u256_val(r0) * pow2(k as nat) == acc * yv + u256_val(rem),
                            pow2((k + 1) as nat) == 2 * pow2(k as nat),
                            u256_val(t) == u256_val(rem) - (yv - u256_val(rem)),
                    ;
                }
                rem = t;
                acc = 2 * acc + 1;
            },
            None => {
                let ghost before = u256_val(rem);
                let doubled = rem.checked_add(rem);
                proof {
                    crate::wide::lemma_u256_bound(y);
                }
                rem = doubled.unwrap();
                proof {
                    assert(u256_val(r0) * pow2((k + 1) as nat) == (2 * acc) * yv + u256_val(rem))
                        by (nonlinear_arith)
                        requires
                            u256_val(r0) * pow2(k as nat) == acc * yv + before,
                            pow2((k + 1) as nat) == 2 * pow2(k as nat),
                            u256_val(rem) == 2 * before,
                    ;
                }
                acc = 2 * acc;
            },
        }
        k = k + 1;
    }
    proof {
        lemma2_to64();
        let total = hi * pow64() + acc;
        assert(xv * pow64() == total * yv + u256_val(rem)) by (nonlinear_arith)
            requires
                xv == yv * hi + u256_val(r0),
                u256_val(r0) * pow64() == acc * yv + u256_val(rem),
                total == hi * pow64() + acc,
        ;
        lemma_fundamental_div_mod_converse(
            (xv * pow64()) as int,
            yv as int,
            total as int,
            u256_val(rem) as int,
        );
        assert(total < pow128()) by (nonlinear_arith)
            requires
                hi < pow64(),
                acc < pow64(),
                total == hi * pow64() + acc,
                pow128() == pow64() * pow64(),
        ;
    }
    Ok(hi * Q64_ONE + acc)
}

proof fn lemma_pow2_le_63(k: nat)
    requires
        k < 63,
    ensures
        pow2(k) <= pow2(63),
    decreases 63 - k,
{
    lemma_pow2_unfold(k + 1);
    if k + 1 < 63 {
        lemma_pow2_le_63(k + 1);
    }
}

} // verus!
