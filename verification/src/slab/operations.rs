//! What each operation of the allocator does, seen from what it is given and what it leaves
//! behind.

use vstd::arithmetic::power2::is_pow2;
use vstd::prelude::*;

use crate::slab::laws::law_alloc;
use crate::slab::mask::lemma_round_up_offset;
use crate::slab::model::{Allocation, Heap, Memory, PSlab, PSlot, Region, Slot, Trim};
use crate::slab::places::law_mapping_divided;
use crate::slab::slab_regions;
use crate::slab::SlabError;

verus! {

/// Slot number `i` of a slab lies `i` slots behind the header, what it holds is what the slab
/// holds there, and masking its address gives the slab.
pub proof fn law_cells<T>(mem: Memory<T>, slab: PSlab, i: int)
    requires
        mem.wf(),
        mem.slabs.contains_key(slab),
        0 <= i < mem.geo.slab_capacity,
    ensures
        ({
            let slot = PSlot {
                ptr: (slab.ptr + mem.geo.header_size + i * mem.geo.slot_size) as usize,
            };
            &&& slot.ptr == slab.ptr + mem.geo.header_size + i * mem.geo.slot_size
            &&& mem.is_slot(slot)
            &&& mem.slab_of(slot) == slab
            &&& slot.ptr & mem.geo.slab_mask.bits == slab.ptr
            &&& mem.index_of(slot) == i
            &&& mem.cell(slot) == mem.slabs[slab].slots[i]
            &&& mem.slot_at(slab, i) == slot
        }),
{
    mem.lemma_slot_at(slab, i);
}

/// A slot that is given back while no slot is free is the next one to be handed out, whatever
/// slab it lies in. Nothing is written, and no allocation fails until it is handed out.
pub proof fn law_given_back_alone<T>(h: Heap<T>, slot: PSlot, mapping: Option<usize>)
    requires
        h.free is None,
    ensures
        h.free_unchecked(slot).free == Some(slot),
        h.free_unchecked(slot).full == h.full,
        h.free_unchecked(slot).mem == h.mem,
        h.free_unchecked(slot).try_alloc(mapping).1 == Ok::<Allocation, SlabError>(
            Allocation { ptr: slot.ptr, trim: Trim { head: None, tail: None } },
        ),
{
}

/// Whether two memories have the same slabs, with the same headers but for that of `slab`.
pub open spec fn same_headers<T>(a: Memory<T>, b: Memory<T>, slab: Option<PSlab>) -> bool {
    &&& a.geo == b.geo
    &&& forall|other: PSlab| #[trigger]
        a.slabs.contains_key(other) <==> b.slabs.contains_key(other)
    &&& forall|other: PSlab| #[trigger]
        a.slabs.contains_key(other) && Some(other) != slab ==> a.slabs[other].next
            == b.slabs[other].next && a.slabs[other].free == b.slabs[other].free
}

/// Whether two memories have the same slots, which hold the same but for `slot`.
pub open spec fn same_contents<T>(a: Memory<T>, b: Memory<T>, slot: Option<PSlot>) -> bool {
    forall|other: PSlot| #[trigger]
        a.is_slot(other) ==> b.is_slot(other) && (Some(other) != slot ==> a.cell(other) == b.cell(
            other,
        ))
}

/// A slot of the slab that slots are taken from goes ahead of the free ones.
pub proof fn law_given_back_ahead<T>(h: Heap<T>, slot: PSlot, free: PSlot)
    requires
        h.mem.wf(),
        h.mem.is_slot(slot),
        h.free == Some(free),
        slot.ptr & h.mem.geo.slab_mask.bits == free.ptr & h.mem.geo.slab_mask.bits,
    ensures
        ({
            let after = h.free_unchecked(slot);
            &&& after.free == Some(slot)
            &&& after.full == h.full
            &&& after.mem.cell(slot) == (Slot::<T>::Vacant { next: Some(free) })
            &&& same_headers(h.mem, after.mem, None)
            &&& same_contents(h.mem, after.mem, Some(slot))
        }),
{
    h.mem.lemma_cell_frame(slot, Slot::Vacant { next: Some(free) });
}

/// A slot of any other slab goes ahead of those that were given back to that slab, and slots
/// are taken from the same slab as before.
pub proof fn law_given_back_aside<T>(h: Heap<T>, slot: PSlot, free: PSlot)
    requires
        h.mem.wf(),
        h.mem.is_slot(slot),
        h.free == Some(free),
        slot.ptr & h.mem.geo.slab_mask.bits != free.ptr & h.mem.geo.slab_mask.bits,
    ensures
        ({
            let after = h.free_unchecked(slot);
            let slab = PSlab { ptr: slot.ptr & h.mem.geo.slab_mask.bits };
            &&& after.free == h.free
            &&& after.full == h.full
            &&& after.mem.slabs[slab].free == Some(slot)
            &&& after.mem.slabs[slab].next == h.mem.slabs[slab].next
            &&& after.mem.cell(slot) == (Slot::<T>::Vacant { next: h.mem.slabs[slab].free })
            &&& same_headers(h.mem, after.mem, Some(slab))
            &&& same_contents(h.mem, after.mem, Some(slot))
        }),
{
    let slab = PSlab { ptr: slot.ptr & h.mem.geo.slab_mask.bits };
    let mem = h.mem.with_free(slab, Some(slot));
    assert(h.mem.same_slots(mem)) by {
        assert(mem.slabs.dom() =~= h.mem.slabs.dom());
    }
    h.mem.lemma_same_cells(mem);
    mem.lemma_cell_frame(slot, Slot::Vacant { next: h.mem.slabs[slab].free });
}

/// While a slot is at hand, that slot is handed out, whatever else is mapped. If another is
/// linked to it, that one is next, and nothing is written.
pub proof fn law_takes_next<T>(h: Heap<T>, slot: PSlot, mapping: Option<usize>)
    requires
        h.free == Some(slot),
        h.mem.cell(slot) is Vacant,
    ensures
        ({
            let (after, result) = h.try_alloc(mapping);
            let next = h.mem.cell(slot)->next;
            &&& result == Ok::<Allocation, SlabError>(
                Allocation { ptr: slot.ptr, trim: Trim { head: None, tail: None } },
            )
            &&& next is Some ==> after.free == next && after.full == h.full && after.mem == h.mem
        }),
{
}

/// The slab whose last slot is taken goes ahead of the used-up ones, and slots are taken from
/// the slab behind it, if there is one.
pub proof fn law_takes_last<T>(h: Heap<T>, slot: PSlot, mapping: Option<usize>)
    requires
        h.mem.wf(),
        h.mem.is_slot(slot),
        h.free == Some(slot),
        h.mem.cell(slot) == (Slot::<T>::Vacant { next: None }),
    ensures
        ({
            let after = h.try_alloc(mapping).0;
            let slab = PSlab { ptr: slot.ptr & h.mem.geo.slab_mask.bits };
            &&& after.full == Some(slab)
            &&& after.mem.slabs[slab].next == h.full
            &&& after.mem.slabs[slab].free is None
            &&& h.mem.slabs[slab].next is None ==> after.free is None
            &&& h.mem.slabs[slab].next matches Some(next) ==> (next != slab ==> after.free
                == h.mem.slabs[next].free)
            &&& same_headers(h.mem, after.mem, Some(slab))
            &&& same_contents(h.mem, after.mem, None)
        }),
{
    let after = h.try_alloc(mapping).0;
    assert(h.mem.same_slots(after.mem)) by {
        assert(after.mem.slabs.dom() =~= h.mem.slabs.dom());
    }
    h.mem.lemma_same_cells(after.mem);
}

/// A walk along the used-up slabs that stops at the first free slot, or at the end, stops at
/// one place only.
proof fn lemma_one_stop<T>(h: Heap<T>, a: Seq<PSlab>, b: Seq<PSlab>)
    requires
        h.is_scan(a),
        h.is_scan(b),
    ensures
        a == b,
{
    assert forall|i: int| 0 <= i && i <= a.len() && i <= b.len() implies a.take(i) == b.take(i) by {
        lemma_one_stop_at(h, a, b, i);
    }
    if a.len() < b.len() {
        lemma_stops_short(h, a, b);
    }
    if b.len() < a.len() {
        lemma_stops_short(h, b, a);
    }
    assert(a.take(a.len() as int) =~= a);
    assert(b.take(b.len() as int) =~= b);
}

proof fn lemma_one_stop_at<T>(h: Heap<T>, a: Seq<PSlab>, b: Seq<PSlab>, i: int)
    requires
        h.is_scan(a),
        h.is_scan(b),
        0 <= i <= a.len(),
        i <= b.len(),
    ensures
        a.take(i) == b.take(i),
    decreases i,
{
    if i > 0 {
        lemma_one_stop_at(h, a, b, i - 1);
        assert(a[i - 1] == b[i - 1]) by {
            if i > 1 {
                assert(a.take(i - 1)[i - 2] == b.take(i - 1)[i - 2]);
                assert(a[i - 2] == b[i - 2]);
            }
        }
        assert(a.take(i) =~= a.take(i - 1).push(a[i - 1]));
        assert(b.take(i) =~= b.take(i - 1).push(b[i - 1]));
    } else {
        assert(a.take(0) =~= b.take(0));
    }
}

proof fn lemma_stops_short<T>(h: Heap<T>, a: Seq<PSlab>, b: Seq<PSlab>)
    requires
        h.is_scan(a),
        h.is_scan(b),
        a.len() <= b.len(),
        a.take(a.len() as int) == b.take(a.len() as int),
    ensures
        a.len() == b.len(),
{
    let n = a.len() as int;
    assert(a.take(n) =~= a);
    if n < b.len() {
        if n > 0 {
            assert(a.take(n)[n - 1] == b.take(n)[n - 1]);
            assert(h.mem.slabs[b[n - 1]].next == Some(b[n]));
        }
        assert(h.mem.slabs[b[n]].free is None);
    }
}

/// A walk along the used-up slabs passes those that have no free slot, from the first one on
/// and each by the header of the one before it, and stops at one that has.
pub proof fn law_walk<T>(h: Heap<T>, passed: Seq<PSlab>, stop: Option<PSlab>)
    requires
        passed.len() == 0 ==> stop == h.full,
        passed.len() > 0 ==> stop == h.mem.slabs[passed.last()].next,
    ensures
        h.is_scan(passed) <==> {
            &&& passed.len() > 0 ==> h.full == Some(passed[0])
            &&& forall|i: int|
                0 <= i < passed.len() ==> h.mem.slabs.contains_key(#[trigger] passed[i])
                    && h.mem.slabs[passed[i]].free is None
            &&& forall|i: int|
                0 <= i < passed.len() - 1 ==> h.mem.slabs[#[trigger] passed[i]].next == Some(
                    passed[i + 1],
                )
            &&& stop matches Some(slab) ==> h.mem.slabs.contains_key(slab)
                && h.mem.slabs[slab].free is Some
        },
{
}

/// Without a slot at hand, the used-up slabs are looked through from the front. The slot that
/// was given back last to the first slab that has one is handed out, whatever is mapped; the
/// one linked to it is next; and the slab is taken out from between its neighbours.
pub proof fn law_reuses<T>(
    h: Heap<T>,
    mapping: Option<usize>,
    passed: Seq<PSlab>,
    slab: PSlab,
    slot: PSlot,
)
    requires
        h.free is None,
        h.is_scan(passed),
        passed.len() == 0 ==> h.full == Some(slab),
        passed.len() > 0 ==> h.mem.slabs[passed.last()].next == Some(slab),
        h.mem.slabs[slab].free == Some(slot),
        h.mem.is_slot(slot),
        h.mem.cell(slot) is Vacant,
    ensures
        ({
            let (after, result) = h.try_alloc(mapping);
            let behind = h.mem.slabs[slab].next;
            &&& result == Ok::<Allocation, SlabError>(
                Allocation { ptr: slot.ptr, trim: Trim { head: None, tail: None } },
            )
            &&& after.free == h.mem.cell(slot)->next
            &&& after.mem.slabs[slab].next is None
            &&& after.mem.slabs[slab].free == Some(slot)
            &&& passed.len() == 0 ==> after.full == behind
            &&& passed.len() > 0 ==> after.full == h.full && after.mem.slabs[passed.last()].next
                == behind && after.mem.slabs[passed.last()].free is None
            &&& same_contents(h.mem, after.mem, None)
            &&& forall|other: PSlab| #[trigger]
                h.mem.slabs.contains_key(other) && other != slab && (passed.len() > 0 ==> other
                    != passed.last()) ==> after.mem.slabs[other] == h.mem.slabs[other]
        }),
{
    let after = h.try_alloc(mapping).0;
    assert(h.scan_ends());
    assert(h.is_scan(h.scan()));
    lemma_one_stop(h, h.scan(), passed);
    assert(h.scan_stop(passed) == Some(slab));
    if passed.len() > 0 {
        assert(passed[passed.len() - 1] == passed.last());
        assert(passed.last() != slab);
    }
    let reused = h.reuse_slab(slab);
    assert(h.mem.same_slots(reused.mem)) by {
        assert(reused.mem.slabs.dom() =~= h.mem.slabs.dom());
    }
    h.mem.lemma_same_cells(reused.mem);
    assert(after.mem == reused.mem);
}

/// Where no used-up slab has a free slot either, an allocation takes mapped memory, and fails
/// without it, leaving everything as it is.
pub proof fn law_needs_memory<T>(h: Heap<T>, passed: Seq<PSlab>, mapping: Option<usize>)
    requires
        h.free is None,
        h.is_scan(passed),
        passed.len() == 0 ==> h.full is None,
        passed.len() > 0 ==> h.mem.slabs[passed.last()].next is None,
    ensures
        mapping is None ==> h.try_alloc(mapping) == (h, Err::<Allocation, SlabError>(SlabError)),
        mapping is Some ==> h.try_alloc(mapping).1 is Ok,
        h.reusable() is None,
{
    assert(h.scan_ends());
    assert(h.is_scan(h.scan()));
    lemma_one_stop(h, h.scan(), passed);
}

/// Slots are handed out in the order of the lists: the first free slot of the first slab. The
/// other lists of slots stay as they are, and a slab that has no free slot left is the first
/// of the used-up ones.
pub proof fn law_takes_in_order<T>(h: Heap<T>, mapping: Option<usize>)
    requires
        h.wf(),
        h.free is Some,
    ensures
        ({
            let w = h.lists();
            let (after, result) = h.try_alloc(mapping);
            let v = after.lists();
            let slab = w.free[0];
            let slots = w.slots[slab];
            &&& w.free.len() > 0
            &&& slots.len() > 0
            &&& result == Ok::<Allocation, SlabError>(
                Allocation { ptr: slots[0].ptr, trim: Trim { head: None, tail: None } },
            )
            &&& after.wf()
            &&& slots.len() > 1 ==> v.free == w.free && v.full == w.full && v.slots[slab]
                == slots.drop_first()
            &&& slots.len() == 1 ==> v.free == w.free.drop_first() && v.full == seq![slab] + w.full
                && v.slots[slab].len() == 0
            &&& forall|other: PSlab| #[trigger]
                w.has(other) && other != slab ==> v.slots[other] == w.slots[other]
        }),
{
    let w = h.lists();
    assert(h.has_lists(w));
    h.lemma_head(w);
    let after = h.try_alloc(mapping).0;
    let slab = w.free[0];
    let last = h.mem.cell(h.free->0)->next is None;
    let u = if last {
        h.lemma_shift(w)
    } else {
        h.lemma_pop(w)
    };
    assert(after.has_lists(u));
    after.lemma_lists_unique(after.lists(), u);
    if last {
        assert(u.full[0] == slab);
    }
    assert(u.has(slab));
    assert forall|other: PSlab| #[trigger] w.has(other) && other != slab implies
        after.lists().slots[other] == w.slots[other] by {
        if last {
            if w.free.contains(other) {
                let i = w.free.index_of(other);
                assert(u.free[i - 1] == other);
            } else {
                let i = w.full.index_of(other);
                assert(u.full[i + 1] == other);
            }
        }
        assert(u.has(other));
    }
}

/// Without a slot at hand, slots come from the used-up slab nearest to the front to which one
/// was given back: the one that was given back last. No memory is needed for that. The slab
/// leaves the used-up ones.
pub proof fn law_reuses_in_order<T>(h: Heap<T>, mapping: Option<usize>, n: int)
    requires
        h.wf(),
        h.free is None,
        0 <= n < h.lists().full.len(),
        h.lists().slots[h.lists().full[n]].len() > 0,
        forall|i: int|
            0 <= i < n ==> h.lists().slots[#[trigger] h.lists().full[i]].len() == 0,
    ensures
        ({
            let w = h.lists();
            let (after, result) = h.try_alloc(mapping);
            let v = after.lists();
            let slab = w.full[n];
            let slots = w.slots[slab];
            &&& result == Ok::<Allocation, SlabError>(
                Allocation { ptr: slots[0].ptr, trim: Trim { head: None, tail: None } },
            )
            &&& after.wf()
            &&& v.full == w.full.remove(n)
            &&& slots.len() > 1 ==> v.free == seq![slab] && v.slots[slab] == slots.drop_first()
            &&& slots.len() == 1 ==> v.free.len() == 0
            &&& forall|other: PSlab| #[trigger]
                w.full.contains(other) && other != slab ==> v.slots[other] == w.slots[other]
        }),
{
    let w = h.lists();
    assert(h.has_lists(w));
    h.lemma_scan_ends(w);
    let slab = w.full[n];
    assert(w.full.contains(slab));
    assert(h.reusable() is Some);
    let m = h.scan().len() as int;
    h.lemma_scan_follows(w, h.scan());
    if n < m {
        assert(h.scan()[n] == slab);
        h.mem.lemma_list_empty(slab, h.mem.slabs[slab].free, w.slots[slab]);
    }
    if m < n {
        assert(w.slots[w.full[m]].len() == 0);
    }
    assert(m == n);
    let after = h.try_alloc(mapping).0;
    let reused = h.reuse_slab(slab);
    let u = h.lemma_reuse(w, slab);
    h.mem.lemma_same_cells(reused.mem);
    reused.lemma_head(u);
    let v = reused.lemma_pop(u);
    assert(after == (Heap { free: reused.mem.cell(reused.free->0)->next, ..reused }));
    assert(after.has_lists(v));
    after.lemma_lists_unique(after.lists(), v);
    assert(u.free[0] == slab);
    if w.slots[slab].len() > 1 {
        assert(v.has(slab));
    }
    assert forall|other: PSlab| #[trigger] w.full.contains(other) && other != slab implies
        after.lists().slots[other] == w.slots[other] by {
        let i = w.full.index_of(other);
        if i < n {
            assert(v.full[i] == other);
        } else {
            assert(v.full[i - 1] == other);
        }
        assert(v.has(other));
    }
}

/// Without any free slot, the first slot comes from the last slab that fits into the new
/// memory. The other slots of new slabs are free, in order; a slab that starts where the
/// memory does comes behind the other one. What else the memory holds is to be unmapped.
pub proof fn law_maps_in_order<T>(h: Heap<T>, mapping: usize)
    requires
        h.wf(),
        h.usable(Some(mapping)),
        forall|slot: PSlot| !#[trigger] h.available(slot),
    ensures
        ({
            let w = h.lists();
            let (after, result) = h.try_alloc(Some(mapping));
            let v = after.lists();
            let geo = h.mem.geo;
            let whole = mapping as int % geo.slab_len as int == 0;
            let base = result->Ok_0.ptr - geo.header_size;
            let slab = PSlab { ptr: base as usize };
            &&& result is Ok
            &&& after.wf()
            // The last slab that fits.
            &&& base % geo.slab_len as int == 0
            &&& mapping <= base
            &&& base + geo.slab_len <= mapping + 2 * geo.slab_len < base + 2 * geo.slab_len
            // The lists.
            &&& v.full == w.full
            &&& geo.slab_capacity == 1 ==> v.free.len() == 0
            &&& geo.slab_capacity > 1 ==> {
                &&& whole ==> v.free == seq![slab, PSlab { ptr: mapping }]
                &&& !whole ==> v.free == seq![slab]
                &&& v.slots[slab].len() == geo.slab_capacity - 1
                &&& forall|i: int|
                    0 <= i < geo.slab_capacity - 1 ==> (#[trigger] v.slots[slab][i]).ptr == base
                        + geo.header_size + (i + 1) * geo.slot_size
                &&& whole ==> {
                    let other = v.slots[PSlab { ptr: mapping }];
                    &&& other.len() == geo.slab_capacity
                    &&& forall|i: int|
                        0 <= i < geo.slab_capacity ==> (#[trigger] other[i]).ptr == mapping
                            + geo.header_size + i * geo.slot_size
                }
            }
            // The rest.
            &&& whole ==> result->Ok_0.trim == (Trim { head: None, tail: None })
            &&& !whole ==> result->Ok_0.trim == (Trim {
                head: Some(Region { addr: mapping, len: (base - mapping) as usize }),
                tail: Some(
                    Region {
                        addr: (base + geo.slab_len) as usize,
                        len: (mapping + geo.slab_len - base) as usize,
                    },
                ),
            })
        }),
{
    let w = h.lists();
    assert(h.has_lists(w));
    h.lemma_available(w);
    h.lemma_scan_ends(w);
    if h.free is Some {
        h.lemma_head(w);
        assert(h.available(h.free->0));
    }
    match h.reusable() {
        Some(slab) => {
            h.mem.lemma_list_at(slab, h.mem.slabs[slab].free, w.slots[slab], 0);
            assert(h.available(w.slots[slab][0]));
        },
        None => {},
    }
    law_alloc(h, Some(mapping));
    law_mapping_divided(h, mapping);
    lemma_round_up_offset(mapping, h.mem.geo.slab_len);
    h.mem.lemma_chain_start(h.current(), w.free);
    h.mem.lemma_chain_start(h.full, w.full);
    let added = h.add_slab(mapping);
    let after = h.try_alloc(Some(mapping)).0;
    let geo = h.mem.geo;
    h.mem.lemma_slot_at(added.slab, 0);
    assert(0 * geo.slot_size == 0) by (nonlinear_arith);
    let u = match added.first {
        Some(first) => {
            let v = h.lemma_map(w, first.ptr);
            h.map_slab(first.ptr).lemma_map(v, added.slab.ptr)
        },
        None => h.lemma_map(w, added.slab.ptr),
    };
    assert(added.heap.has_lists(u));
    added.heap.lemma_head(u);
    assert(u.free[0] == added.slab);
    let v = added.heap.lemma_pop(u);
    assert(after.has_lists(v));
    after.lemma_lists_unique(after.lists(), v);
    if geo.slab_capacity > 1 {
        assert(v.free[0] == added.slab);
        assert(v.has(added.slab));
        if added.first is Some {
            assert(v.free[1] == added.first->0);
            assert(v.has(added.first->0));
            assert(v.free =~= seq![added.slab, added.first->0]);
        } else {
            assert(v.free =~= seq![added.slab]);
        }
        assert forall|i: int| 0 <= i < geo.slab_capacity - 1 implies (
        #[trigger] after.lists().slots[added.slab][i]).ptr == added.slab.ptr + geo.header_size + (i + 1)
            * geo.slot_size by {
            h.mem.lemma_slot_at(added.slab, i + 1);
        }
        if added.first is Some {
            let first = added.first->0;
            assert forall|i: int| 0 <= i < geo.slab_capacity implies (
            #[trigger] after.lists().slots[first][i]).ptr == mapping + geo.header_size + i
                * geo.slot_size by {
                h.mem.lemma_slot_at(first, i);
            }
        }
    }
}

/// A slot that is given back while another is free goes ahead of the free slots of its slab,
/// so that what was given back last is handed out first. All lists stay as they are otherwise.
pub proof fn law_given_back_in_order<T>(h: Heap<T>, slot: PSlot)
    requires
        h.wf(),
        h.free is Some,
        h.mem.is_slot(slot),
        !h.available(slot),
    ensures
        ({
            let w = h.lists();
            let v = h.free_unchecked(slot).lists();
            let slab = PSlab { ptr: slot.ptr & h.mem.geo.slab_mask.bits };
            &&& h.free_unchecked(slot).wf()
            &&& v.free == w.free
            &&& v.full == w.full
            &&& w.has(slab) ==> v.slots[slab] == seq![slot] + w.slots[slab]
            &&& forall|other: PSlab| #[trigger]
                w.has(other) && other != slab ==> v.slots[other] == w.slots[other]
        }),
{
    let w = h.lists();
    assert(h.has_lists(w));
    h.lemma_available(w);
    let v = h.lemma_free(w, slot);
    let after = h.free_unchecked(slot);
    after.lemma_lists_unique(after.lists(), v);
    assert forall|other: PSlab| #[trigger] w.has(other) implies v.has(other) by {}
}

/// A new slab has all of its slots free, each linked to the one behind it, and the slab that
/// slots were taken from comes behind it.
pub proof fn law_new_slab<T>(h: Heap<T>, ptr: usize, i: int)
    requires
        h.mem.geo.wf(),
        is_pow2(h.mem.geo.slab_len as int),
        h.mem.aligned(PSlab { ptr }),
        0 <= i < h.mem.geo.slab_capacity,
    ensures
        ({
            let after = h.map_slab(ptr);
            let slab = PSlab { ptr };
            let geo = h.mem.geo;
            &&& after.full == h.full
            &&& after.free is Some && after.free->0.ptr == ptr + geo.header_size
            &&& after.mem.slabs[slab].free == after.free
            &&& h.free is None ==> after.mem.slabs[slab].next is None
            &&& h.free matches Some(free) ==> after.mem.slabs[slab].next == Some(
                PSlab { ptr: free.ptr & geo.slab_mask.bits },
            )
            &&& after.mem.slabs[slab].slots.len() == geo.slab_capacity
            &&& i + 1 < geo.slab_capacity ==> after.mem.slabs[slab].slots[i] == (
            Slot::<T>::Vacant {
                next: Some(
                    PSlot { ptr: (ptr + geo.header_size + (i + 1) * geo.slot_size) as usize },
                ),
            })
            &&& i + 1 == geo.slab_capacity ==> after.mem.slabs[slab].slots[i] == (
            Slot::<T>::Vacant { next: None })
            &&& forall|other: PSlab| #[trigger]
                after.mem.slabs.contains_key(other) <==> other == slab
                    || h.mem.slabs.contains_key(other)
            &&& forall|other: PSlab| #[trigger]
                h.mem.slabs.contains_key(other) && other != slab ==> after.mem.slabs[other]
                    == h.mem.slabs[other]
        }),
{
    h.mem.lemma_slot_at(PSlab { ptr }, 0);
    assert(0 * h.mem.geo.slot_size == 0) by (nonlinear_arith);
}

/// What is stored at an address is what is found there, and what is found elsewhere is what
/// was there before. Free slots and used-up slabs stay as they are.
pub proof fn law_stored<T>(h: Heap<T>, ptr: usize, value: T, other: usize)
    requires
        h.mem.wf(),
        h.mem.is_slot(PSlot { ptr }),
        other != ptr,
    ensures
        ({
            let after = h.with_object(ptr, value);
            &&& after.holds_object(ptr)
            &&& after.object(ptr) == value
            &&& after.mem.cell(PSlot { ptr }) == (Slot::Occupied { value })
            &&& h.holds_object(other) <==> after.holds_object(other)
            &&& h.holds_object(other) ==> after.object(other) == h.object(other)
            &&& after.free == h.free && after.full == h.full
            &&& same_headers(h.mem, after.mem, None)
            &&& same_contents(h.mem, after.mem, Some(PSlot { ptr }))
        }),
{
    h.mem.lemma_cell_frame(PSlot { ptr }, Slot::Occupied { value });
}

/// An object is at an address exactly if the slot there was last written to with one.
pub proof fn law_objects<T>(h: Heap<T>, ptr: usize, value: T)
    requires
        h.mem.is_slot(PSlot { ptr }),
    ensures
        h.mem.cell(PSlot { ptr }) == (Slot::Occupied { value }) <==> h.holds_object(ptr)
            && h.object(ptr) == value,
{
}

/// Dropping an object gives back its slot: if nothing was free, it is the next slot, and if
/// something was, it goes ahead of the free slots of its slab. Other objects stay.
pub proof fn law_dropped<T>(h: Heap<T>, ptr: usize, other: usize)
    requires
        h.mem.wf(),
        h.holds_object(ptr),
        other != ptr,
    ensures
        ({
            let after = h.drop_object(ptr);
            let slab = ptr & h.mem.geo.slab_mask.bits;
            &&& !after.holds_object(ptr)
            &&& h.holds_object(other) ==> after.holds_object(other) && after.object(other)
                == h.object(other)
            &&& after.full == h.full
            &&& h.free is None ==> after.free == Some(PSlot { ptr })
            &&& h.free matches Some(free) ==> {
                if free.ptr & h.mem.geo.slab_mask.bits == slab {
                    &&& after.free == Some(PSlot { ptr })
                    &&& after.mem.cell(PSlot { ptr }) == (Slot::<T>::Vacant { next: h.free })
                } else {
                    &&& after.free == h.free
                    &&& after.mem.slabs[PSlab { ptr: slab }].free == Some(PSlot { ptr })
                    &&& after.mem.cell(PSlot { ptr }) == (Slot::<T>::Vacant {
                        next: h.mem.slabs[PSlab { ptr: slab }].free,
                    })
                }
            }
        }),
{
    let slot = PSlot { ptr };
    let spent = Heap { mem: h.mem.with_cell(slot, Slot::Spent), ..h };
    h.mem.lemma_cell_frame(slot, Slot::Spent);
    assert(spent.mem.is_slot(slot));
    match h.free {
        None => {},
        Some(free) => {
            if free.ptr & h.mem.geo.slab_mask.bits == ptr & h.mem.geo.slab_mask.bits {
                law_given_back_ahead(spent, slot, free);
            } else {
                law_given_back_aside(spent, slot, free);
            }
        },
    }
}

/// The memory of slabs is one region for each of them, at the slab's address and of its
/// length.
pub proof fn law_regions(slabs: Seq<PSlab>, len: usize, i: int)
    requires
        0 <= i < slabs.len(),
    ensures
        slab_regions(slabs, len).len() == slabs.len(),
        slab_regions(slabs, len)[i].addr == slabs[i].ptr,
        slab_regions(slabs, len)[i].len == len,
{
}

/// New memory becomes one slab after the other: the one that starts where the memory does, if
/// it starts at a multiple of the slab length, and then the one at the next multiple.
pub proof fn law_added<T>(h: Heap<T>, mapping: usize)
    requires
        h.mem.geo.wf(),
        h.mappable(mapping),
    ensures
        ({
            let added = h.add_slab(mapping);
            let len = h.mem.geo.slab_len;
            if mapping % len == 0 {
                &&& added.first == Some(PSlab { ptr: mapping })
                &&& added.slab.ptr == mapping + len
                &&& added.heap == h.map_slab(mapping).map_slab((mapping + len) as usize)
            } else {
                &&& added.first is None
                &&& added.slab.ptr == mapping + len - mapping % len
                &&& added.heap == h.map_slab(added.slab.ptr)
            }
        }),
{
    law_mapping_divided(h, mapping);
    lemma_round_up_offset(mapping, h.mem.geo.slab_len);
}

/// What is unmapped in the end is what the headers lead through, first from the slab that
/// slots are taken from and then from the first used-up one.
pub proof fn law_released<T>(h: Heap<T>, free: Seq<PSlab>, full: Seq<PSlab>)
    requires
        h.mem.is_chain(
            match h.free {
                Some(slot) => Some(PSlab { ptr: slot.ptr & h.mem.geo.slab_mask.bits }),
                None => None,
            },
            free,
        ),
        h.mem.is_chain(h.full, full),
    ensures
        h.released() == free + full,
{
    h.mem.lemma_chain_unique(h.current(), h.mem.chain(h.current()), free);
    h.mem.lemma_chain_unique(h.full, h.mem.chain(h.full), full);
}

/// A chain of slabs is what following the headers leads through, up to the end.
pub proof fn law_chain<T>(mem: Memory<T>, start: Option<PSlab>, slabs: Seq<PSlab>)
    ensures
        mem.is_chain(start, slabs) <==> {
            &&& slabs.len() == 0 ==> start is None
            &&& slabs.len() > 0 ==> start == Some(slabs[0])
            &&& forall|i: int|
                0 <= i < slabs.len() ==> {
                    &&& mem.slabs.contains_key(#[trigger] slabs[i])
                    &&& i + 1 < slabs.len() ==> mem.slabs[slabs[i]].next == Some(slabs[i + 1])
                    &&& i + 1 == slabs.len() ==> mem.slabs[slabs[i]].next is None
                }
        },
{
    reveal(Memory::is_chain);
    if mem.is_chain(start, slabs) {
        assert forall|i: int| 0 <= i < slabs.len() implies {
            &&& mem.slabs.contains_key(#[trigger] slabs[i])
            &&& i + 1 < slabs.len() ==> mem.slabs[slabs[i]].next == Some(slabs[i + 1])
            &&& i + 1 == slabs.len() ==> mem.slabs[slabs[i]].next is None
        } by {
            mem.lemma_chain_at(start, slabs, i);
        }
    }
}

/// Memory can be used for slabs wherever it lies, as long as it is not at null, ends inside
/// the address space, holds no slab yet, and slabs have a power of two as their length.
pub proof fn law_usable<T>(h: Heap<T>, mapping: usize)
    ensures
        h.mappable(mapping) <==> is_pow2(h.mem.geo.slab_len as int) && mapping != 0 && mapping
            + h.mem.geo.slab_alloc <= usize::MAX,
        h.usable(None),
        h.usable(Some(mapping)) <==> h.mappable(mapping) && forall|slab: PSlab| #[trigger]
            h.mem.slabs.contains_key(slab) ==> slab.ptr + h.mem.geo.slab_len <= mapping || mapping
                + h.mem.geo.slab_alloc <= slab.ptr,
        h.wf() ==> h.can_alloc(None),
        h.wf() && h.mappable(mapping) ==> h.can_alloc(Some(mapping)),
{
}

} // verus!
