//! Where slabs and slots lie in memory.

use vstd::arithmetic::div_mod::{
    lemma_basic_div, lemma_div_pos_is_pos, lemma_fundamental_div_mod,
    lemma_fundamental_div_mod_converse, lemma_mod_multiples_basic, lemma_small_mod,
};
use vstd::arithmetic::power2::is_pow2;
use vstd::layout::{align_of, size_of};
use vstd::prelude::*;

use crate::slab::layout::{geometry_for, header_size, max, slot_align, slot_size};
use crate::slab::mask::{lemma_mask_rounds_down, lemma_round_up, lemma_round_up_offset};
use crate::slab::model::{Heap, Memory, PSlot};
use crate::slab::SlabAllocatorOptions;

verus! {

/// Masking the address of anything in a slab gives the address of the slab.
pub proof fn law_mask_finds_slab(slab: usize, offset: int, len: usize)
    requires
        is_pow2(len as int),
        slab as int % len as int == 0,
        0 <= offset < len,
        slab + offset <= usize::MAX,
    ensures
        ((slab + offset) as usize) & !((len - 1) as usize) == slab,
{
    reveal(is_pow2);
    let addr = (slab + offset) as usize;
    lemma_mask_rounds_down(addr, len);
    lemma_fundamental_div_mod(slab as int, len as int);
    let q = slab as int / len as int;
    assert(addr == q * len + offset) by (nonlinear_arith)
        requires
            slab == len * q,
            addr == slab + offset,
    ;
    lemma_fundamental_div_mod_converse(addr as int, len as int, q, offset);
}

/// A slot lies behind the header of its slab, and ends where its slab does at the latest.
pub proof fn law_slot_inside_slab<T>(mem: Memory<T>, slot: PSlot)
    requires
        mem.wf(),
        mem.is_slot(slot),
    ensures
        mem.slab_of(slot).ptr + mem.geo.header_size <= slot.ptr,
        slot.ptr + mem.geo.slot_size <= mem.slab_of(slot).ptr + mem.geo.slab_len,
        slot == mem.slot_at(mem.slab_of(slot), mem.index_of(slot)),
        0 <= mem.index_of(slot) < mem.geo.slab_capacity,
{
    let slab = mem.slab_of(slot);
    let size = mem.geo.slot_size as int;
    let i = mem.index_of(slot);
    lemma_fundamental_div_mod(mem.slot_offset(slot), size);
    lemma_div_pos_is_pos(mem.slot_offset(slot), size);
    assert(size * i == i * size) by (nonlinear_arith);
    assert(mem.slabs.contains_key(slab));
    mem.lemma_slot_at(slab, i);
}

/// Two slots do not overlap.
pub proof fn law_slots_apart<T>(mem: Memory<T>, a: PSlot, b: PSlot)
    requires
        mem.wf(),
        mem.is_slot(a),
        mem.is_slot(b),
        a != b,
    ensures
        a.ptr + mem.geo.slot_size <= b.ptr || b.ptr + mem.geo.slot_size <= a.ptr,
{
    law_slot_inside_slab(mem, a);
    law_slot_inside_slab(mem, b);
    let p = mem.slab_of(a);
    let q = mem.slab_of(b);
    let size = mem.geo.slot_size as int;
    let len = mem.geo.slab_len as int;
    assert(mem.slabs.contains_key(p));
    assert(mem.slabs.contains_key(q));
    if p == q {
        let i = mem.index_of(a);
        let j = mem.index_of(b);
        mem.lemma_slot_at(p, i);
        mem.lemma_slot_at(p, j);
        assert(i != j);
        if i < j {
            assert(i * size + size <= j * size) by (nonlinear_arith)
                requires
                    i < j,
                    0 < size,
            ;
        } else {
            assert(j * size + size <= i * size) by (nonlinear_arith)
                requires
                    j < i,
                    0 < size,
            ;
        }
    } else {
        lemma_multiples_apart(p.ptr as int, q.ptr as int, len);
    }
}

/// Two different multiples of a number are at least that number apart.
pub proof fn lemma_multiples_apart(a: int, b: int, len: int)
    requires
        len > 0,
        a % len == 0,
        b % len == 0,
        a != b,
    ensures
        a + len <= b || b + len <= a,
{
    lemma_fundamental_div_mod(a, len);
    lemma_fundamental_div_mod(b, len);
    let p = a / len;
    let q = b / len;
    if p < q {
        assert(len * p + len <= len * q) by (nonlinear_arith)
            requires
                p < q,
                0 < len,
        ;
    } else {
        assert(p != q);
        assert(len * q + len <= len * p) by (nonlinear_arith)
            requires
                q < p,
                0 < len,
        ;
    }
}

/// Of two powers of two, the smaller one divides the larger one.
proof fn lemma_pow2_divides(a: int, b: int)
    requires
        is_pow2(a),
        is_pow2(b),
        a <= b,
    ensures
        b % a == 0,
    decreases a,
{
    reveal(is_pow2);
    if a > 1 {
        assert(b > 1);
        lemma_pow2_divides(a / 2, b / 2);
        let h = a / 2;
        let q = (b / 2) / h;
        lemma_fundamental_div_mod(b / 2, h);
        assert(b == q * a) by (nonlinear_arith)
            requires
                b == 2 * (h * q),
                a == 2 * h,
        ;
        lemma_mod_multiples_basic(q, a);
    }
}

proof fn lemma_divides_sum(x: int, y: int, z: int, a: int)
    requires
        a > 0,
        x % a == 0,
        y % a == 0,
        z % a == 0,
    ensures
        (x + y + z) % a == 0,
{
    lemma_fundamental_div_mod(x, a);
    lemma_fundamental_div_mod(y, a);
    lemma_fundamental_div_mod(z, a);
    let p = x / a;
    let q = y / a;
    let r = z / a;
    assert(x + y + z == (p + q + r) * a) by (nonlinear_arith)
        requires
            x == a * p,
            y == a * q,
            z == a * r,
    ;
    lemma_mod_multiples_basic(p + q + r, a);
}

proof fn lemma_divides_product(i: int, y: int, a: int)
    requires
        a > 0,
        y % a == 0,
    ensures
        (i * y) % a == 0,
{
    lemma_fundamental_div_mod(y, a);
    let q = y / a;
    assert(i * y == (i * q) * a) by (nonlinear_arith)
        requires
            y == a * q,
    ;
    lemma_mod_multiples_basic(i * q, a);
}

/// An object fits into every slot: slots are large enough for it, and lie at addresses that
/// suit its alignment.
pub proof fn law_objects_fit<T>(
    options: SlabAllocatorOptions,
    page_size: usize,
    mem: Memory<T>,
    slot: PSlot,
)
    requires
        geometry_for::<T>(options, page_size) == Some(mem.geo),
        mem.wf(),
        mem.is_slot(slot),
    ensures
        size_of::<T>() <= mem.geo.slot_size,
        slot.ptr as int % align_of::<T>() as int == 0,
{
    broadcast use vstd::layout::group_layout_axioms;

    reveal(is_pow2);
    let a = slot_align::<T>();
    let t = align_of::<T>() as int;
    lemma_round_up(2 * size_of::<usize>() as int, a);
    lemma_round_up(max(size_of::<usize>() as int, size_of::<T>() as int), a);
    let room = options.pages_per_slab * page_size - header_size::<T>();
    if room < slot_size::<T>() {
        lemma_basic_div(room, slot_size::<T>());
    }
    law_slot_inside_slab(mem, slot);
    let slab = mem.slab_of(slot);
    let i = mem.index_of(slot);
    let len = mem.geo.slab_len as int;
    assert(mem.slabs.contains_key(slab));
    mem.lemma_slot_at(slab, i);
    assert(a <= header_size::<T>()) by {
        lemma_divides_at_most(header_size::<T>(), a);
    }
    lemma_pow2_divides(t, a);
    lemma_pow2_divides(t, len);
    lemma_divides_divides(header_size::<T>(), a, t);
    lemma_divides_divides(slot_size::<T>(), a, t);
    lemma_divides_divides(slab.ptr as int, len, t);
    lemma_divides_product(i, mem.geo.slot_size as int, t);
    lemma_divides_sum(slab.ptr as int, mem.geo.header_size as int, i * mem.geo.slot_size, t);
}

proof fn lemma_divides_at_most(x: int, a: int)
    requires
        a > 0,
        x > 0,
        x % a == 0,
    ensures
        a <= x,
{
    if x < a {
        lemma_small_mod(x as nat, a as nat);
    }
}

proof fn lemma_divides_divides(x: int, a: int, t: int)
    requires
        a > 0,
        t > 0,
        x % a == 0,
        a % t == 0,
    ensures
        x % t == 0,
{
    lemma_fundamental_div_mod(x, a);
    let q = x / a;
    assert(x == q * a) by (nonlinear_arith)
        requires
            x == a * q,
    ;
    lemma_divides_product(q, a, t);
}

/// The slabs made of a mapping and the parts that are to be unmapped lie behind each other
/// and make up the whole mapping. The slabs start at multiples of their length.
pub proof fn law_mapping_divided<T>(h: Heap<T>, mapping: usize)
    requires
        h.mem.geo.wf(),
        h.mappable(mapping),
    ensures
        ({
            let added = h.add_slab(mapping);
            let len = h.mem.geo.slab_len;
            let end = mapping + h.mem.geo.slab_alloc;
            &&& h.mem.aligned(added.slab)
            &&& match added.first {
                // Two slabs.
                Some(first) => {
                    &&& h.mem.aligned(first)
                    &&& first.ptr == mapping
                    &&& added.slab.ptr == first.ptr + len
                    &&& end == added.slab.ptr + len
                    &&& added.trim.head is None
                    &&& added.trim.tail is None
                },
                // One slab, and something to unmap on either side of it.
                None => {
                    &&& added.trim.head matches Some(head) && head.addr == mapping && head.addr
                        + head.len == added.slab.ptr && 0 < head.len
                    &&& added.trim.tail matches Some(tail) && tail.addr == added.slab.ptr + len
                        && tail.addr + tail.len == end && 0 < tail.len
                },
            }
        }),
{
    h.lemma_added_aligned(mapping);
    lemma_round_up_offset(mapping, h.mem.geo.slab_len);
}

} // verus!
