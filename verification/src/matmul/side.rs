//! Buffer lengths that are powers of four, and the side of the square
//! matrix that such a buffer holds.
use vstd::arithmetic::power2::{
    lemma2_to64, lemma_pow2_adds, lemma_pow2_pos, lemma_pow2_strictly_increases, pow2,
};
use vstd::bits::{lemma_u64_shl_is_mul, lemma_usize_shl_is_mul};
use vstd::prelude::*;
use vstd::std_specs::bits::{axiom_u64_trailing_zeros, u64_trailing_zeros};

verus! {

/// `n` is one of 1, 2, 4, 8, ...
pub open spec fn is_power_of_two(n: nat) -> bool
    decreases n,
{
    n == 1 || (n >= 2 && n % 2 == 0 && is_power_of_two(n / 2))
}

/// `len` is one of 1, 4, 16, 64, ...: the number of entries of a square
/// matrix whose side is a power of two.
pub open spec fn is_power_of_four(len: nat) -> bool
    decreases len,
{
    len == 1 || (len >= 4 && len % 4 == 0 && is_power_of_four(len / 4))
}

/// `a`, `b` and `d` can hold the factors and the product of one
/// multiplication of square matrices whose side is a power of two: they are
/// equally long, and the length is a power of four.
pub open spec fn multipliable(a: Seq<i32>, b: Seq<i32>, d: Seq<i32>) -> bool {
    is_power_of_four(a.len()) && b.len() == a.len() && d.len() == a.len()
}

/// The side of the square matrix with `len` entries, for `len` a power of
/// four: 1 for 1, 2 for 4, 4 for 16, ...
pub open spec fn side(len: nat) -> nat
    decreases len,
{
    if len < 4 {
        1
    } else {
        2 * side(len / 4)
    }
}

/// How often `len` can be divided by four before it falls below four.
pub open spec fn quarterings(len: nat) -> nat
    decreases len,
{
    if len < 4 {
        0
    } else {
        1 + quarterings(len / 4)
    }
}

/// A power of four is the square of its side, and the side is a power of two.
pub proof fn lemma_side_squared(len: nat)
    requires
        is_power_of_four(len),
    ensures
        side(len) * side(len) == len,
        is_power_of_two(side(len)),
        side(len) >= 1,
    decreases len,
{
    if len >= 4 {
        lemma_side_squared(len / 4);
        let h = side(len / 4);
        assert(len == 4 * (len / 4));
        assert(side(len) == 2 * h);
        assert((2 * h) * (2 * h) == 4 * (h * h)) by (nonlinear_arith);
        assert((2 * h) / 2 == h);
        assert((2 * h) % 2 == 0);
    } else {
        assert(len == 1);
        assert(side(len) == 1);
    }
}

/// The square of a power of two is a power of four, and its side is that
/// power of two.
pub proof fn lemma_square_of_power_of_two(n: nat)
    requires
        is_power_of_two(n),
    ensures
        is_power_of_four(n * n),
        side(n * n) == n,
    decreases n,
{
    if n >= 2 {
        let h = n / 2;
        lemma_square_of_power_of_two(h);
        assert(n * n == 4 * (h * h)) by (nonlinear_arith)
            requires
                n == 2 * h,
        ;
        assert(h * h >= 1) by (nonlinear_arith)
            requires
                h >= 1,
        ;
        assert((n * n) / 4 == h * h);
        assert((n * n) % 4 == 0);
        assert(side(n * n) == 2 * side(h * h));
    } else {
        assert(n == 1);
        assert(n * n == 1) by (nonlinear_arith)
            requires
                n == 1,
        ;
    }
}

/// A power of four is two to twice its number of quarterings, and its side
/// is two to that number.
pub proof fn lemma_power_of_four_as_pow2(len: nat)
    requires
        is_power_of_four(len),
    ensures
        len == pow2(2 * quarterings(len)),
        side(len) == pow2(quarterings(len)),
    decreases len,
{
    lemma2_to64();
    if len >= 4 {
        lemma_power_of_four_as_pow2(len / 4);
        let e = quarterings(len / 4);
        lemma_pow2_adds(2 * e, 2);
        lemma_pow2_adds(e, 1);
    }
}

/// The number of trailing zero bits of two to the `e` is `e`.
pub proof fn lemma_trailing_zeros_of_pow2(e: nat)
    requires
        e < 64,
    ensures
        u64_trailing_zeros(pow2(e) as u64) == e,
{
    let x = pow2(e) as u64;
    let s = e as u64;
    vstd::bits::lemma_u64_pow2_no_overflow(e);
    assert(1u64 << s == 1 * pow2(e)) by {
        lemma_u64_shl_is_mul(1u64, s);
    }
    assert(x == 1u64 << s);
    axiom_u64_trailing_zeros(x);
    let t = u64_trailing_zeros(x) as u64;
    assert(x != 0);
    assert(t < 64);
    assert((x >> t) & 1u64 == 1u64);
    assert(((1u64 << s) >> t) & 1u64 == 1u64 ==> t == s) by (bit_vector)
        requires
            s < 64,
            t < 64,
    ;
}

/// The base-two logarithm of the side of the square matrix that a buffer of
/// `len` entries holds: half the number of trailing zero bits of `len`.
pub fn side_bits(len: usize) -> (bits: u32)
    requires
        is_power_of_four(len as nat),
    ensures
        bits < usize::BITS,
        pow2(bits as nat) == side(len as nat),
        bits == quarterings(len as nat),
{
    let bits = (len as u64).trailing_zeros() / 2;
    proof {
        let e = quarterings(len as nat);
        lemma_power_of_four_as_pow2(len as nat);
        lemma_side_squared(len as nat);
        lemma2_to64();
        if 2 * e >= 64 {
            if 2 * e > 64 {
                lemma_pow2_strictly_increases(64, 2 * e);
            }
            assert(false);
        }
        lemma_trailing_zeros_of_pow2(2 * e);
        assert(bits == e);
        if e >= usize::BITS {
            if e > 32 {
                lemma_pow2_strictly_increases(32, e);
            }
            assert(false);
        }
    }
    bits
}

/// The side of the square matrix that a buffer of `len` entries holds.
pub fn side_of(len: usize) -> (n: usize)
    requires
        is_power_of_four(len as nat),
    ensures
        n == side(len as nat),
        n * n == len,
        n >= 1,
{
    let bits = side_bits(len);
    proof {
        lemma_side_squared(len as nat);
        let n = side(len as nat);
        assert(n <= n * n) by (nonlinear_arith)
            requires
                n >= 1,
        ;
        lemma_usize_shl_is_mul(1usize, bits as usize);
    }
    1usize << bits
}

/// Position `i * n + k` of a matrix of side `n`, two to the `bits`, put
/// together from the bits of `i` and `k`.
pub fn shifted_index(i: usize, bits: u32, k: usize) -> (r: usize)
    requires
        bits < usize::BITS,
        i < pow2(bits as nat),
        k < pow2(bits as nat),
        pow2(bits as nat) * pow2(bits as nat) <= usize::MAX,
    ensures
        r == i * pow2(bits as nat) + k,
{
    let ghost n = pow2(bits as nat) as int;
    proof {
        assert(i * n + k < n * n) by (nonlinear_arith)
            requires
                0 <= i < n,
                0 <= k < n,
        ;
        assert(i * n >= 0) by (nonlinear_arith)
            requires
                0 <= i,
                0 <= n,
        ;
        lemma_pow2_pos(bits as nat);
        assert(n <= n * n) by (nonlinear_arith)
            requires
                n >= 1,
        ;
        lemma_usize_shl_is_mul(i, bits as usize);
        lemma_usize_shl_is_mul(1usize, bits as usize);
    }
    let high = i << bits;
    proof {
        let one = 1usize << bits;
        assert(one == n);
        assert(high == i * n);
        assert((i << bits) | k == (i << bits) + k) by (bit_vector)
            requires
                bits < usize::BITS,
                k < (1usize << bits),
        ;
    }
    high | k
}

} // verus!
