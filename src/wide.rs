//! 256-bit words and 160-bit addresses, as ethers represents them.
//!
//! Both outside types keep their limbs or bytes in a public array field, so
//! the contracts of this crate read their value straight from that field.
use vstd::prelude::*;

verus! {

#[verifier::external_type_specification]
pub struct ExU256(ethers::types::U256);

#[verifier::external_type_specification]
pub struct ExU512(ethers::types::U512);

#[verifier::external_type_specification]
pub struct ExH160(ethers::types::H160);

/// 2^64.
pub open spec fn pow64() -> nat {
    0x1_0000_0000_0000_0000
}

/// 2^128.
pub open spec fn pow128() -> nat {
    pow64() * pow64()
}

/// 2^256, one past the largest 256-bit word.
pub open spec fn word_limit() -> nat {
    pow128() * pow128()
}

/// The value of a 256-bit word: its four little-endian 64-bit limbs.
pub open spec fn u256_val(x: ethers::types::U256) -> nat {
    x.0[0] as nat + x.0[1] as nat * pow64() + x.0[2] as nat * pow128() + x.0[3] as nat * (
    pow128() * pow64())
}

/// 2^512, one past the largest 512-bit word.
pub open spec fn wide_limit() -> nat {
    word_limit() * word_limit()
}

/// The value of a 512-bit word: its eight little-endian 64-bit limbs, the low
/// four weighing as in a 256-bit word, the high four as much times 2^256.
pub open spec fn u512_val(x: ethers::types::U512) -> nat {
    (x.0[0] as nat + x.0[1] as nat * pow64() + x.0[2] as nat * pow128() + x.0[3] as nat * (pow128()
        * pow64())) + (x.0[4] as nat + x.0[5] as nat * pow64() + x.0[6] as nat * pow128()
        + x.0[7] as nat * (pow128() * pow64())) * word_limit()
}

/// An address is zero when all of its twenty bytes are.
pub open spec fn is_zero_address(a: ethers::types::H160) -> bool {
    forall|i: int| 0 <= i < 20 ==> a.0[i] == 0
}

/// Two addresses are the same when their bytes are.
pub open spec fn same_address(a: ethers::types::H160, b: ethers::types::H160) -> bool {
    a.0@ == b.0@
}

/// Relies on `U256::zero` of the uint crate: the word with all limbs zero.
pub assume_specification[ ethers::types::U256::zero ]() -> (r: ethers::types::U256)
    ensures
        u256_val(r) == 0,
;

/// Relies on `From<u128> for U256` of the uint crate: the low two limbs take
/// the value, the high two are zero.
pub assume_specification[ <ethers::types::U256 as core::convert::From<u128>>::from ](
    value: u128,
) -> (r: ethers::types::U256)
    ensures
        u256_val(r) == value,
;

/// Relies on `U256::checked_mul` of the uint crate: `None` exactly when the
/// product does not fit in 256 bits.
pub assume_specification[ ethers::types::U256::checked_mul ](
    a: ethers::types::U256,
    b: ethers::types::U256,
) -> (r: Option<ethers::types::U256>)
    ensures
        r.is_some() == (u256_val(a) * u256_val(b) < word_limit()),
        r.is_some() ==> u256_val(r.unwrap()) == u256_val(a) * u256_val(b),
;

/// Relies on `U256::checked_add` of the uint crate: `None` exactly when the
/// sum does not fit in 256 bits.
pub assume_specification[ ethers::types::U256::checked_add ](
    a: ethers::types::U256,
    b: ethers::types::U256,
) -> (r: Option<ethers::types::U256>)
    ensures
        r.is_some() == (u256_val(a) + u256_val(b) < word_limit()),
        r.is_some() ==> u256_val(r.unwrap()) == u256_val(a) + u256_val(b),
;

/// Relies on `U256::checked_sub` of the uint crate: `None` exactly when the
/// difference would be negative.
pub assume_specification[ ethers::types::U256::checked_sub ](
    a: ethers::types::U256,
    b: ethers::types::U256,
) -> (r: Option<ethers::types::U256>)
    ensures
        r.is_some() == (u256_val(a) >= u256_val(b)),
        r.is_some() ==> u256_val(r.unwrap()) == u256_val(a) - u256_val(b),
;

/// Relies on `U256::div_mod` of the uint crate: quotient and remainder;
/// it panics on a zero divisor, which `requires` leaves out.
pub assume_specification[ ethers::types::U256::div_mod ](
    a: ethers::types::U256,
    b: ethers::types::U256,
) -> (r: (ethers::types::U256, ethers::types::U256))
    requires
        u256_val(b) != 0,
    ensures
        u256_val(r.0) == u256_val(a) / u256_val(b),
        u256_val(r.1) == u256_val(a) % u256_val(b),
;

/// Relies on `U256::is_zero` of the uint crate: true when every limb is zero.
pub assume_specification[ ethers::types::U256::is_zero ](a: &ethers::types::U256) -> (r: bool)
    ensures
        r == (u256_val(*a) == 0),
;

/// Relies on `U256::as_u128` of the uint crate: the low two limbs; it panics
/// when a high limb is set, which `requires` leaves out.
pub assume_specification[ ethers::types::U256::as_u128 ](a: &ethers::types::U256) -> (r: u128)
    requires
        u256_val(*a) < pow128(),
    ensures
        r == u256_val(*a),
;

/// Relies on `U256::full_mul` of the primitive-types crate: the whole
/// product as a 512-bit word; it cannot overflow.
pub assume_specification[ ethers::types::U256::full_mul ](
    a: ethers::types::U256,
    b: ethers::types::U256,
) -> (r: ethers::types::U512)
    ensures
        u512_val(r) == u256_val(a) * u256_val(b),
;

/// Relies on `From<U256> for U512` of the primitive-types crate: the four
/// limbs are copied low, the high four are zero.
pub assume_specification[ <ethers::types::U512 as core::convert::From<ethers::types::U256>>::from ](
    value: ethers::types::U256,
) -> (r: ethers::types::U512)
    ensures
        u512_val(r) == u256_val(value),
;

/// Relies on `U512::checked_mul` of the uint crate: `None` exactly when the
/// product does not fit in 512 bits.
pub assume_specification[ ethers::types::U512::checked_mul ](
    a: ethers::types::U512,
    b: ethers::types::U512,
) -> (r: Option<ethers::types::U512>)
    ensures
        r.is_some() == (u512_val(a) * u512_val(b) < wide_limit()),
        r.is_some() ==> u512_val(r.unwrap()) == u512_val(a) * u512_val(b),
;

/// Relies on `U512::checked_add` of the uint crate: `None` exactly when the
/// sum does not fit in 512 bits.
pub assume_specification[ ethers::types::U512::checked_add ](
    a: ethers::types::U512,
    b: ethers::types::U512,
) -> (r: Option<ethers::types::U512>)
    ensures
        r.is_some() == (u512_val(a) + u512_val(b) < wide_limit()),
        r.is_some() ==> u512_val(r.unwrap()) == u512_val(a) + u512_val(b),
;

/// Relies on `U512::div_mod` of the uint crate: quotient and remainder; it
/// panics on a zero divisor, which `requires` leaves out.
pub assume_specification[ ethers::types::U512::div_mod ](
    a: ethers::types::U512,
    b: ethers::types::U512,
) -> (r: (ethers::types::U512, ethers::types::U512))
    requires
        u512_val(b) != 0,
    ensures
        u512_val(r.0) == u512_val(a) / u512_val(b),
        u512_val(r.1) == u512_val(a) % u512_val(b),
;

/// Relies on `U512::low_u128` of the uint crate: the two low limbs, which are
/// the whole value when it is below 2^128.
pub assume_specification[ ethers::types::U512::low_u128 ](a: &ethers::types::U512) -> (r: u128)
    requires
        u512_val(*a) < pow128(),
    ensures
        r == u512_val(*a),
;

/// Relies on `H160::is_zero` of the fixed-hash crate: true when every byte is
/// zero.
pub assume_specification[ ethers::types::H160::is_zero ](a: &ethers::types::H160) -> (r: bool)
    ensures
        r == is_zero_address(*a),
;

/// Relies on `H160::zero` of the fixed-hash crate: twenty zero bytes.
pub assume_specification[ ethers::types::H160::zero ]() -> (r: ethers::types::H160)
    ensures
        is_zero_address(r),
;

/// Every 256-bit word is below 2^256.
pub proof fn lemma_u256_bound(x: ethers::types::U256)
    ensures
        u256_val(x) < word_limit(),
{
    let a = x.0[0] as int;
    let b = x.0[1] as int;
    let c = x.0[2] as int;
    let d = x.0[3] as int;
    assert(0 <= a < pow64() && 0 <= b < pow64() && 0 <= c < pow64() && 0 <= d < pow64());
    assert(a + b * pow64() < pow128()) by (nonlinear_arith)
        requires
            0 <= a < pow64(),
            0 <= b < pow64(),
            pow128() == pow64() * pow64(),
    ;
    assert(a + b * pow64() + c * pow128() + d * (pow128() * pow64()) < pow128() * pow128()) by (
    nonlinear_arith)
        requires
            0 <= a + b * pow64() < pow128(),
            0 <= c < pow64(),
            0 <= d < pow64(),
            pow128() == pow64() * pow64(),
    ;
}

/// A word fits in 128 bits exactly when its two high limbs are zero.
pub proof fn lemma_fits_u128(x: ethers::types::U256)
    ensures
        (u256_val(x) < pow128()) == (x.0[2] == 0 && x.0[3] == 0),
{
    let a = x.0[0] as int;
    let b = x.0[1] as int;
    let c = x.0[2] as int;
    let d = x.0[3] as int;
    let p = pow64() as int;
    assert(u256_val(x) == a + b * p + c * (p * p) + d * (p * p * p));
    assert(a + b * p + c * (p * p) + d * (p * p * p) < p * p <==> (c == 0 && d == 0)) by (
    nonlinear_arith)
        requires
            0 <= a < p,
            0 <= b < p,
            0 <= c,
            0 <= d,
            p > 1,
    ;
}

/// Whether a word fits in 128 bits.
pub fn fits_u128(x: &ethers::types::U256) -> (r: bool)
    ensures
        r == (u256_val(*x) < pow128()),
{
    proof {
        lemma_fits_u128(*x);
    }
    x.0[2] == 0 && x.0[3] == 0
}

/// Byte-wise comparison of two addresses.
pub fn addresses_equal(a: &ethers::types::H160, b: &ethers::types::H160) -> (r: bool)
    ensures
        r == same_address(*a, *b),
{
    let mut i: usize = 0;
    while i < 20
        invariant
            i <= 20,
            forall|j: int| 0 <= j < i ==> a.0[j] == b.0[j],
        decreases 20 - i,
    {
        if a.0[i] != b.0[i] {
            return false;
        }
        i = i + 1;
    }
    assert(a.0@ =~= b.0@);
    true
}

} // verus!
