//! Machine-word arithmetic built from bitwise operations: a carry-
//! propagating adder, a shift-and-add multiplier, and the Gray code.

use vstd::prelude::*;

verus! {

/// Adds two machine words using only bitwise operations: each round keeps
/// the carry-free sum `x ^ y` and re-injects the carries `(x & y) << 1` one
/// bit higher.  The result is the sum modulo `2^32`.
pub fn adder(a: u32, b: u32) -> (r: u32)
    ensures
        r == (a + b) % 0x1_0000_0000,
{
    let mut x = a;
    let mut y = b;
    // The ghost mask records which low bits of `y` are already known to be
    // zero; it grows by one bit each round, so the loop ends within 32 rounds.
    let ghost mut mask: u64 = 0;
    proof {
        assert(b as u64 & 0u64 == 0 && 0u64 & 1u64 == 0) by (bit_vector);
    }
    while y != 0
        invariant
            (x + y) % 0x1_0000_0000 == (a + b) % 0x1_0000_0000,
            y as u64 & mask == 0,
            mask & ((mask + 1) as u64) == 0,
            mask <= 0xFFFF_FFFF,
        decreases 0xFFFF_FFFFu64 - mask,
    {
        let carry = (x & y) << 1u32;
        proof {
            assert(((x ^ y) + (((x & y) << 1u32) as u32)) % 0x1_0000_0000 == (x + y)
                % 0x1_0000_0000) by (bit_vector);
            assert({
                let grown = (mask << 1u64) | 1u64;
                &&& (((x & y) << 1u32) as u64) & grown == 0
                &&& grown & ((grown + 1) as u64) == 0
                &&& mask < grown <= 0xFFFF_FFFF
            }) by (bit_vector)
                requires
                    y != 0,
                    (y as u64) & mask == 0,
                    mask & ((mask + 1) as u64) == 0,
                    mask <= 0xFFFF_FFFF,
            ;
            mask = (mask << 1u64) | 1u64;
        }
        x = x ^ y;
        y = carry;
    }
    x
}

/// Multiplies two machine words by shift-and-add, using `adder` for the
/// additions of partial products.  The product must fit in a machine word.
pub fn multiplier(a: u32, b: u32) -> (r: u32)
    requires
        a * b <= u32::MAX,
    ensures
        r == a * b,
    decreases b,
{
    let mut res: u32 = 0;
    if b == 0 {
        return 0;
    }
    if b & 1 == 1 {
        res = adder(res, a);
    }
    proof {
        assert(b & 1 == b % 2) by (bit_vector);
        assert(b >> 1u32 == b / 2) by (bit_vector);
        assert(b != 0 ==> b >> 1u32 < b) by (bit_vector);
        if b >= 2 {
            assert(2 * a <= a * b) by (nonlinear_arith)
                requires
                    b >= 2,
                    a >= 0,
            ;
            assert(a < 0x8000_0000 ==> a << 1u32 == 2 * a) by (bit_vector);
            assert((2 * a) * (b / 2) <= a * b) by (nonlinear_arith)
                requires
                    a >= 0,
                    2 * (b / 2) <= b,
            ;
        }
    }
    let rest = multiplier(a << 1u32, b >> 1u32);
    proof {
        if b >= 2 {
            assert(a * (b % 2) + (2 * a) * (b / 2) == a * b) by (nonlinear_arith)
                requires
                    b % 2 + 2 * (b / 2) == b,
            ;
        }
    }
    res + rest
}

/// The reflected binary (Gray) code of `n`: adjacent inputs yield outputs
/// that differ in exactly one bit.
pub fn gray_code(n: u32) -> (r: u32)
    ensures
        r == n ^ (n >> 1u32),
{
    n ^ (n >> 1u32)
}

} // verus!
