//! Powers of two, and the mask that takes an address to the slab it lies in.

use vstd::arithmetic::div_mod::{
    lemma_fundamental_div_mod, lemma_fundamental_div_mod_converse, lemma_mod_multiples_basic,
};
use vstd::arithmetic::power::pow;
use vstd::arithmetic::power2::{is_pow2, is_pow2_equiv, lemma_pow2, lemma_pow2_strictly_increases, pow2};
use vstd::bits::{lemma_usize_low_bits_mask_is_mod, low_bits_mask};
use vstd::prelude::*;

use crate::slab::SlabError;

verus! {

/// The largest multiple of `len` that is not above `addr`.
pub open spec fn round_down(addr: int, len: int) -> int {
    addr - addr % len
}

/// The smallest multiple of `len` that is not below `addr`.
pub open spec fn round_up(addr: int, len: int) -> int {
    round_down(addr + len - 1, len)
}

/// Rounding up goes less than one step up, to a multiple.
pub proof fn lemma_round_up(n: int, a: int)
    requires
        a > 0,
        n >= 0,
    ensures
        n <= round_up(n, a) < n + a,
        round_up(n, a) % a == 0,
        n % a == 0 ==> round_up(n, a) == n,
        0 < n <= a ==> round_up(n, a) == a,
{
    let m = n + a - 1;
    assert(0 <= m % a < a);
    lemma_fundamental_div_mod(m, a);
    assert(round_up(n, a) == a * (m / a));
    lemma_mod_multiples_basic(m / a, a);
    assert((m / a) * a == a * (m / a)) by (nonlinear_arith);
    if n % a == 0 {
        lemma_fundamental_div_mod(n, a);
        lemma_fundamental_div_mod_converse(m, a, n / a, a - 1);
    }
    if 0 < n <= a {
        lemma_fundamental_div_mod_converse(m, a, 1, n - 1);
    }
}

/// The distance from `addr` to the next multiple of `len`.
pub proof fn lemma_round_up_offset(addr: usize, len: usize)
    requires
        len > 0,
    ensures
        round_up(addr as int, len as int) - addr == (if addr % len == 0 {
            0
        } else {
            len - addr % len
        }),
        round_up(addr as int, len as int) % len as int == 0,
{
    lemma_round_up(addr as int, len as int);
    let over = addr as int % len as int;
    if over != 0 {
        let q = addr as int / len as int;
        let m = addr + len - 1;
        lemma_fundamental_div_mod(addr as int, len as int);
        assert(m == len * (q + 1) + (over - 1)) by (nonlinear_arith)
            requires
                addr == len * q + over,
                m == addr + len - 1,
        ;
        lemma_fundamental_div_mod_converse(m, len as int, q + 1, over - 1);
    }
}

/// A number is a power of two exactly if it has no bit in common with its predecessor.
proof fn lemma_pow2_low_bits(n: usize)
    requires
        n > 0,
    ensures
        is_pow2(n as int) <==> n & ((n - 1) as usize) == 0,
    decreases n,
{
    reveal(is_pow2);
    if n == 1 {
        assert(1usize & 0usize == 0) by (bit_vector);
    } else {
        let m: usize = (n - 1) as usize;
        let h: usize = n / 2;
        let g: usize = (h - 1) as usize;
        lemma_pow2_low_bits(h);
        assert(n & m == 0 <==> (n % 2 == 0 && h & g == 0)) by (bit_vector)
            requires
                n > 1,
                m == n - 1,
                h == n / 2,
                g == h - 1,
        ;
    }
}

/// Masking with the complement of `len - 1` rounds down to a multiple of `len`.
pub proof fn lemma_mask_rounds_down(addr: usize, len: usize)
    requires
        is_pow2(len as int),
    ensures
        addr & !((len - 1) as usize) == round_down(addr as int, len as int),
{
    is_pow2_equiv(len as int);
    let e: nat = choose|e: nat| pow(2, e) == len;
    lemma_pow2(e);
    assert(pow2(e) == len);
    if e >= usize::BITS {
        lemma_pow2(usize::BITS as nat);
        vstd::layout::unsigned_int_max_values();
        if e > usize::BITS {
            lemma_pow2_strictly_increases(usize::BITS as nat, e);
        }
        assert(false);
    }
    lemma_usize_low_bits_mask_is_mod(addr, e);
    let m: usize = (len - 1) as usize;
    assert(len > 0) by {
        reveal(is_pow2);
    }
    assert(low_bits_mask(e) == m);
    assert(addr & !m == addr - (addr & m)) by (bit_vector);
}

/// Whether `n` is a power of two.
pub fn is_power_of_two(n: usize) -> (r: bool)
    ensures
        r == is_pow2(n as int),
{
    proof {
        if n > 0 {
            lemma_pow2_low_bits(n);
        } else {
            reveal(is_pow2);
        }
    }
    n != 0 && n & (n - 1) == 0
}

/// The mask that takes the address of anything inside a slab to the slab's own
/// address, for slabs that start at multiples of their length.
#[derive(Clone, Copy, PartialEq, Eq, Structural)]
pub struct SlabMask {
    pub bits: usize,
}

impl SlabMask {
    /// The mask for slabs of `len` bytes; only powers of two have one.
    pub fn from_len(len: usize) -> (r: Result<SlabMask, SlabError>)
        ensures
            r == (if is_pow2(len as int) {
                Ok::<SlabMask, SlabError>(SlabMask { bits: !((len - 1) as usize) })
            } else {
                Err(SlabError)
            }),
    {
        if !is_power_of_two(len) {
            return Err(SlabError);
        }
        reveal(is_pow2);
        Ok(SlabMask { bits: !(len - 1) })
    }

    pub fn to_usize(self) -> (r: usize)
        ensures
            r == self.bits,
    {
        self.bits
    }

    /// The address of the slab that `addr` lies in. No slab lies at address zero.
    pub fn apply(self, addr: usize) -> (r: usize)
        requires
            addr & self.bits != 0,
        ensures
            r == addr & self.bits,
    {
        addr & self.to_usize()
    }
}

} // verus!
