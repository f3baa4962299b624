//! What holds of the allocator as a whole.

use vstd::arithmetic::div_mod::lemma_div_pos_is_pos;
use vstd::prelude::*;

use crate::slab::lists::{at, Lists};
use crate::slab::model::{no_trim, Allocation, Heap, PSlab, PSlot, Slot};
use crate::slab::SlabError;

verus! {

impl<T> Heap<T> {
    /// Whether no mapped slab lies inside a mapping at `mapping`.
    pub open spec fn fresh(self, mapping: usize) -> bool {
        forall|slab: PSlab| #[trigger]
            self.mem.slabs.contains_key(slab) ==> slab.ptr + self.mem.geo.slab_len <= mapping
                || mapping + self.mem.geo.slab_alloc <= slab.ptr
    }

    /// Whether an allocation can be made: the heap is well-formed, or whatever the allocation
    /// reads is there all the same.
    pub open spec fn can_alloc(self, mapping: Option<usize>) -> bool {
        ||| self.wf() && (mapping matches Some(mapping) ==> self.mappable(mapping))
        ||| self.alloc_defined(mapping)
    }

    /// Whether memory mapped at `mapping` is memory that the allocator can use.
    pub open spec fn usable(self, mapping: Option<usize>) -> bool {
        mapping matches Some(mapping) ==> self.mappable(mapping) && self.fresh(mapping)
    }
}

/// What an allocation hands out is a slot, at an address other than zero.
pub proof fn lemma_alloc_slot<T>(h: Heap<T>, mapping: Option<usize>)
    requires
        h.mem.geo.wf(),
        h.alloc_defined(mapping),
    ensures
        h.try_alloc(mapping).1 matches Ok(allocation) ==> h.try_alloc(mapping).0.mem.is_slot(
            PSlot { ptr: allocation.ptr },
        ) && h.try_alloc(mapping).0.mem.cell(PSlot { ptr: allocation.ptr }) is Vacant,
        h.try_alloc(mapping).0.mem.geo == h.mem.geo,
{
    let after = h.try_alloc(mapping).0;
    if h.free is None && h.reusable() is None {
        if mapping is Some {
            let added = h.add_slab(mapping->0);
            h.lemma_added_aligned(mapping->0);
            h.mem.lemma_slot_at(added.slab, 0);
            assert(after.mem.slab_of(h.mem.slot_at(added.slab, 0)) == added.slab);
            assert(after.mem.slabs[added.slab].slots == h.mem.fresh_slots(added.slab));
        }
    } else {
        assert(h.free is None ==> h.is_scan(h.scan()));
        assert(h.mem.same_slots(after.mem)) by {
            assert(after.mem.slabs.dom() =~= h.mem.slabs.dom());
        }
        h.mem.lemma_same_cells(after.mem);
    }
}

/// What one allocation did to what is free.
pub open spec fn alloc_effect<T>(h: Heap<T>, after: Heap<T>, ptr: usize) -> bool {
    let slot = PSlot { ptr };
    // The slot was free, or is part of new memory, and is free no longer.
    &&& h.available(slot) || !h.mem.is_slot(slot)
    &&& after.mem.is_slot(slot)
    &&& !after.available(slot)
    // What else was free still is; what else is free was, or is part of new memory.
    &&& forall|other: PSlot| #[trigger]
        h.available(other) && other != slot ==> after.available(other)
    &&& forall|other: PSlot| #[trigger]
        after.available(other) ==> h.available(other) || !h.mem.is_slot(other)
    // No slot was written to.
    &&& forall|other: PSlot| #[trigger]
        h.mem.is_slot(other) ==> after.mem.is_slot(other) && after.mem.cell(other) == h.mem.cell(
            other,
        )
}

/// What storing an object in a newly handed-out slot did. As `alloc_effect`, but the slot
/// itself was written to.
pub open spec fn place_effect<T>(h: Heap<T>, after: Heap<T>, ptr: usize) -> bool {
    let slot = PSlot { ptr };
    &&& h.available(slot) || !h.mem.is_slot(slot)
    &&& after.holds_object(ptr)
    &&& !after.available(slot)
    &&& forall|other: PSlot| #[trigger]
        h.available(other) && other != slot ==> after.available(other)
    &&& forall|other: PSlot| #[trigger]
        after.available(other) ==> h.available(other) || !h.mem.is_slot(other)
    &&& forall|other: PSlot| #[trigger]
        h.mem.is_slot(other) ==> after.mem.is_slot(other) && (other != slot ==> after.mem.cell(other)
            == h.mem.cell(other))
}

/// A free slot is a slot that holds a link: no object lies in it.
pub proof fn law_free_slots_hold_no_object<T>(h: Heap<T>, slot: PSlot)
    requires
        h.wf(),
        h.available(slot),
    ensures
        h.mem.is_slot(slot),
        h.mem.cell(slot) is Vacant,
        !h.holds_object(slot.ptr),
{
    let w = h.lists();
    h.lemma_available(w);
    let slab = h.mem.slab_of(slot);
    let i = w.slots[slab].index_of(slot);
    if w.free.contains(slab) {
        h.mem.lemma_list_at(slab, h.first_free(slab), w.slots[slab], i);
    } else {
        h.mem.lemma_list_at(slab, h.mem.slabs[slab].free, w.slots[slab], i);
    }
}

/// Taking the next slot, with or without a look at whether it was the last of its slab.
proof fn lemma_pop_effect<T>(h: Heap<T>, w: Lists)
    requires
        h.has_lists(w),
        h.free is Some,
        w.slots[w.free[0]].len() == 1 ==> w.free.len() == 1,
    ensures
        ({
            let after = Heap { free: h.mem.cell(h.free->0)->next, ..h };
            &&& after.wf()
            &&& alloc_effect(h, after, h.free->0.ptr)
            &&& h.mem.cell(h.free->0)->next is Some ==> forall|slab: PSlab| #[trigger]
                after.listed(slab) == h.listed(slab)
        }),
{
    let slot = h.free->0;
    let after = Heap { free: h.mem.cell(slot)->next, ..h };
    h.lemma_head(w);
    let v = h.lemma_pop(w);
    h.lemma_available(w);
    after.lemma_available(v);
    let slab = w.free[0];
    let slots = w.slots[slab];
    assert(h.mem.slab_of(slot) == slab);
    h.mem.lemma_list_drop_first(slab, h.free, slots);
    assert forall|other: PSlot| h.available(other) && other != slot implies #[trigger]
        after.available(other) by {
        let b = h.mem.slab_of(other);
        if b == slab {
            let i = slots.index_of(other);
            assert(slots.drop_first()[i - 1] == other);
            assert(v.free.contains(b));
        } else {
            assert(v.has(b));
        }
    }
    assert forall|other: PSlot| #[trigger] after.available(other) implies h.available(other)
        && other != slot by {
        let b = h.mem.slab_of(other);
        if b == slab {
            if w.full.contains(slab) {
                assert(w.free.contains(slab));
            }
            let i = slots.drop_first().index_of(other);
            assert(slots[i + 1] == other);
            assert(slots.contains(other));
        }
    }
}

/// Taking the last slot of a slab.
proof fn lemma_shift_effect<T>(h: Heap<T>, w: Lists)
    requires
        h.has_lists(w),
        h.free is Some,
        h.mem.cell(h.free->0)->next is None,
    ensures
        ({
            let after = (Heap { free: None, ..h }).shift_freelist(h.free->0);
            &&& after.wf()
            &&& alloc_effect(h, after, h.free->0.ptr)
            &&& forall|slab: PSlab| #[trigger] after.listed(slab) == h.listed(slab)
        }),
{
    let slot = h.free->0;
    let after = (Heap { free: None, ..h }).shift_freelist(slot);
    h.lemma_head(w);
    let v = h.lemma_shift(w);
    h.lemma_available(w);
    after.lemma_available(v);
    let slab = w.free[0];
    let slots = w.slots[slab];
    assert(h.mem.same_slots(after.mem)) by {
        assert(after.mem.slabs.dom() =~= h.mem.slabs.dom());
    }
    h.mem.lemma_same_cells(after.mem);
    assert forall|b: PSlab| #[trigger] v.has(b) == w.has(b) by {
        if w.free.contains(b) {
            let i = w.free.index_of(b);
            if i == 0 {
                assert(v.full[0] == b);
            } else {
                assert(v.free[i - 1] == b);
            }
        }
        if w.full.contains(b) {
            let i = w.full.index_of(b);
            assert(v.full[i + 1] == b);
        }
        if v.free.contains(b) {
            let i = v.free.index_of(b);
            assert(w.free[i + 1] == b);
        }
        if v.full.contains(b) {
            let i = v.full.index_of(b);
            if i > 0 {
                assert(w.full[i - 1] == b);
            }
        }
    }
    assert forall|other: PSlot| h.available(other) && other != slot implies #[trigger]
        after.available(other) by {
        if h.mem.slab_of(other) == slab {
            let i = slots.index_of(other);
            assert(slots.len() == 1);
        }
    }
}

/// Taking a slot that was given back to a used-up slab.
proof fn lemma_reuse_effect<T>(h: Heap<T>, w: Lists, slab: PSlab)
    requires
        h.has_lists(w),
        h.free is None,
        h.reusable() == Some(slab),
    ensures
        ({
            let after = h.reuse_slab(slab).take_first(slab);
            &&& after.wf()
            &&& alloc_effect(h, after, h.mem.slabs[slab].free->0.ptr)
            &&& after.free is Some ==> forall|b: PSlab| #[trigger] after.listed(b) == h.listed(b)
        }),
{
    let v = h.lemma_reuse(w, slab);
    let reused = h.reuse_slab(slab);
    h.lemma_available(w);
    reused.lemma_available(v);
    h.lemma_scan_ends(w);
    h.mem.lemma_same_cells(reused.mem);
    h.mem.lemma_chain_start(h.current(), w.free);
    let n = h.scan().len() as int;
    assert forall|b: PSlab| #[trigger] v.has(b) == w.has(b) by {
        if w.full.contains(b) {
            let i = w.full.index_of(b);
            if i < n {
                assert(v.full[i] == b);
            } else if i == n {
                assert(v.free[0] == b);
            } else {
                assert(v.full[i - 1] == b);
            }
        }
        if v.full.contains(b) {
            let i = v.full.index_of(b);
            if i < n {
                assert(w.full[i] == b);
            } else {
                assert(w.full[i + 1] == b);
            }
        }
    }
    lemma_pop_effect(reused, v);
    let after = reused.take_first(slab);
    assert(reused.free == reused.mem.slabs[slab].free);
    assert(after == (Heap { free: reused.mem.cell(reused.free->0)->next, ..reused }));
    assert forall|slot: PSlot| #[trigger] h.available(slot) == reused.available(slot) by {
        assert(v.has(h.mem.slab_of(slot)) == w.has(h.mem.slab_of(slot)));
    }
    assert forall|other: PSlot| #[trigger] after.available(other) implies h.available(other)
        || !h.mem.is_slot(other) by {
        assert(h.available(other) == reused.available(other));
    }
    assert forall|b: PSlab| after.free is Some implies #[trigger] after.listed(b) == h.listed(b) by {
        assert(v.has(b) == w.has(b));
        assert(reused.listed(b) == h.listed(b));
    }
}

/// Taking the first slot of new memory.
proof fn lemma_add_effect<T>(h: Heap<T>, w: Lists, mapping: usize)
    requires
        h.has_lists(w),
        h.free is None,
        h.reusable() is None,
        h.mappable(mapping),
        h.fresh(mapping),
    ensures
        ({
            let added = h.add_slab(mapping);
            let after = added.heap.take_first(added.slab);
            &&& after.wf()
            &&& alloc_effect(h, after, h.mem.slot_at(added.slab, 0).ptr)
            &&& forall|slot: PSlot| !#[trigger] h.available(slot)
            &&& after.free is Some ==> forall|b: PSlab| #[trigger]
                after.listed(b) == (h.listed(b) || (after.mem.slabs.contains_key(b)
                    && !h.mem.slabs.contains_key(b)))
        }),
{
    let added = h.add_slab(mapping);
    let after = added.heap.take_first(added.slab);
    let slot = h.mem.slot_at(added.slab, 0);
    h.lemma_added_aligned(mapping);
    h.lemma_scan_ends(w);
    h.lemma_available(w);
    h.mem.lemma_chain_start(h.current(), w.free);
    h.mem.lemma_chain_start(h.full, w.full);
    let u = match added.first {
        Some(first) => {
            let v = h.lemma_map(w, first.ptr);
            h.map_slab(first.ptr).lemma_map(v, added.slab.ptr)
        },
        None => h.lemma_map(w, added.slab.ptr),
    };
    assert(added.heap.has_lists(u));
    added.heap.lemma_head(u);
    h.mem.lemma_slot_at(added.slab, 0);
    assert(u.free[0] == added.slab);
    let slots = u.slots[added.slab];
    added.heap.mem.lemma_list_drop_first(added.slab, added.heap.free, slots);
    let v = added.heap.lemma_pop(u);
    after.lemma_available(v);
    assert forall|b: PSlab| #[trigger] u.free.contains(b) implies !h.mem.slabs.contains_key(b) by {
        let i = u.free.index_of(b);
        assert(b == added.slab || added.first == Some(b));
    }
    assert forall|other: PSlot| #[trigger] after.available(other) implies other != slot
        && !h.mem.is_slot(other) by {
        let b = after.mem.slab_of(other);
        if w.full.contains(b) {
            assert(w.slots[b].len() == 0);
            assert(!u.free.contains(b));
            assert(v.slots[b] == w.slots[b]);
        }
        assert(u.free.contains(b));
    }
    assert forall|b: PSlab| after.free is Some implies #[trigger] after.listed(b) == (h.listed(b)
        || (after.mem.slabs.contains_key(b) && !h.mem.slabs.contains_key(b))) by {
        assert(v.free == u.free);
        assert(u.free[0] == added.slab);
        if added.first is Some {
            assert(u.free[1] == added.first->0);
        }
        assert(u.free.contains(b) == (b == added.slab || added.first == Some(b)));
    }
}

/// An allocation from a well-formed heap reads only what is there.
pub proof fn lemma_alloc_defined<T>(h: Heap<T>, mapping: Option<usize>)
    requires
        h.wf(),
        mapping matches Some(mapping) ==> h.mappable(mapping),
    ensures
        h.alloc_defined(mapping),
        h.head_mapped(),
{
    let w = h.lists();
    assert(h.has_lists(w));
    h.lemma_scan_ends(w);
    if h.free is Some {
        h.lemma_head(w);
        if at(w.free, 1) is Some {
            h.mem.lemma_chain_at(h.current(), w.free, 1);
        }
    } else {
        match h.reusable() {
            Some(slab) => {
                h.mem.lemma_list_at(slab, h.mem.slabs[slab].free, w.slots[slab], 0);
            },
            None => {},
        }
    }
}

/// An allocation from a well-formed heap reads only what is there, and leaves a well-formed
/// heap. It succeeds exactly if a slot is free or memory was mapped. The slot it hands out
/// was free or is part of the new memory, and is free no longer; all other free slots stay
/// free, and no slot is written to. If it fails, nothing changes.
pub proof fn law_alloc<T>(h: Heap<T>, mapping: Option<usize>)
    requires
        h.wf(),
        h.usable(mapping),
    ensures
        h.alloc_defined(mapping),
        h.try_alloc(mapping).0.wf(),
        h.try_alloc(mapping).1 is Ok <==> mapping is Some || exists|slot: PSlot|
            h.available(slot),
        match h.try_alloc(mapping).1 {
            Ok(allocation) => alloc_effect(h, h.try_alloc(mapping).0, allocation.ptr),
            Err(_) => h.try_alloc(mapping).0 == h,
        },
{
    let w = h.lists();
    assert(h.has_lists(w));
    h.lemma_available(w);
    h.lemma_scan_ends(w);
    lemma_alloc_defined(h, mapping);
    if h.free is Some {
        h.lemma_head(w);
        let slot = h.free->0;
        assert(h.available(slot));
        if h.mem.cell(slot)->next is None {
            lemma_shift_effect(h, w);
        } else {
            lemma_pop_effect(h, w);
        }
    } else {
        match h.reusable() {
            Some(slab) => {
                h.mem.lemma_list_at(slab, h.mem.slabs[slab].free, w.slots[slab], 0);
                assert(h.available(w.slots[slab][0]));
                lemma_reuse_effect(h, w, slab);
            },
            None => {
                h.mem.lemma_chain_start(h.current(), w.free);
                assert forall|slot: PSlot| !#[trigger] h.available(slot) by {}
                if mapping is Some {
                    lemma_add_effect(h, w, mapping->0);
                }
            },
        }
    }
}

/// What giving back a slot did to what is free.
pub open spec fn free_effect<T>(h: Heap<T>, after: Heap<T>, slot: PSlot) -> bool {
    // The slot is free again, unless its slab is in no list.
    &&& after.available(slot) <==> h.listed(h.mem.slab_of(slot)) || h.free is None
    // What else is free is what else was.
    &&& forall|other: PSlot| other != slot ==> #[trigger] after.available(other) == h.available(
        other,
    )
    // No other slot was written to.
    &&& forall|other: PSlot| #[trigger]
        h.mem.is_slot(other) ==> after.mem.is_slot(other) && (other != slot ==> after.mem.cell(other)
            == h.mem.cell(other))
}

/// Giving back a slot that is in use leaves a well-formed heap, as long as another slot is
/// free. The slot is free afterwards, unless its slab has dropped out of the lists; no other
/// slot becomes free or is written to.
pub proof fn law_free<T>(h: Heap<T>, slot: PSlot)
    requires
        h.wf(),
        h.mem.is_slot(slot),
        !h.available(slot),
        h.free_keeps(slot),
    ensures
        h.free_unchecked(slot).wf(),
        free_effect(h, h.free_unchecked(slot), slot),
{
    let w = h.lists();
    assert(h.has_lists(w));
    h.lemma_available(w);
    let after = h.free_unchecked(slot);
    let slab = h.mem.slab_of(slot);
    let v = if h.free is Some {
        let v = h.lemma_free(w, slot);
        h.lemma_head(w);
        let m = if slab == w.free[0] {
            h.mem
        } else {
            h.mem.with_free(slab, Some(slot))
        };
        assert(h.mem.same_slots(m)) by {
            assert(m.slabs.dom() =~= h.mem.slabs.dom());
        }
        h.mem.lemma_same_cells(m);
        m.lemma_cell_frame(slot, after.mem.cell(slot));
        v
    } else {
        h.mem.lemma_chain_start(h.current(), w.free);
        h.lemma_free_alone(w, slot)
    };
    after.lemma_available(v);
    if h.free is Some {
        let longer = seq![slot] + w.slots[slab];
        assert(longer[0] == slot);
        assert forall|other: PSlot| other != slot implies longer.contains(other)
            == #[trigger] w.slots[slab].contains(other) by {
            if w.slots[slab].contains(other) {
                let i = w.slots[slab].index_of(other);
                assert(longer[i + 1] == other);
            }
            if longer.contains(other) {
                let i = longer.index_of(other);
                assert(w.slots[slab][i - 1] == other);
            }
        }
        assert forall|other: PSlot| other != slot implies #[trigger] after.available(other)
            == h.available(other) by {
            assert(v.has(h.mem.slab_of(other)) == w.has(h.mem.slab_of(other)));
            assert(longer.contains(other) == w.slots[slab].contains(other));
        }
        assert(v.has(slab) == w.has(slab));
    } else {
        assert(v.free[0] == slab);
        assert(seq![slot][0] == slot);
        assert forall|other: PSlot| other != slot implies #[trigger] after.available(other)
            == h.available(other) by {
            let b = h.mem.slab_of(other);
            assert(v.has(b) == (w.has(b) || b == slab)) by {
                if v.free.contains(b) {
                    assert(v.free.index_of(b) == 0);
                }
            }
        }
    }
}

/// Adding slabs keeps a heap well-formed as long as no slot was taken from its first slab.
/// The new slabs go ahead of those that have free slots, all of their slots are free, in
/// order, and no slot that was there before is written to.
pub proof fn law_add_slab<T>(h: Heap<T>, mapping: usize)
    requires
        h.wf(),
        h.synced(),
        h.mappable(mapping),
        h.fresh(mapping),
    ensures
        ({
            let added = h.add_slab(mapping);
            let behind = match added.first {
                Some(first) => seq![added.slab, first],
                None => seq![added.slab],
            };
            &&& added.heap.wf()
            &&& added.heap.synced()
            &&& added.heap.lists().free == behind + h.lists().free
            &&& added.heap.lists().full == h.lists().full
            &&& added.heap.lists().slots[added.slab] == h.mem.all_slots(added.slab)
            &&& added.first matches Some(first) ==> added.heap.lists().slots[first]
                == h.mem.all_slots(first)
            &&& forall|slot: PSlot| #[trigger]
                h.mem.is_slot(slot) ==> added.heap.mem.is_slot(slot) && added.heap.mem.cell(slot)
                    == h.mem.cell(slot)
        }),
{
    let added = h.add_slab(mapping);
    let w = h.lists();
    assert(h.has_lists(w));
    h.lemma_added_aligned(mapping);
    let u = match added.first {
        Some(first) => {
            let v = h.lemma_map(w, first.ptr);
            let u = h.map_slab(first.ptr).lemma_map(v, added.slab.ptr);
            assert(u.free =~= seq![added.slab, first] + w.free);
            assert(u.free[1] == first);
            u
        },
        None => h.lemma_map(w, added.slab.ptr),
    };
    assert(added.heap.has_lists(u));
    assert(u.free[0] == added.slab);
    added.heap.lemma_lists_unique(added.heap.lists(), u);
    assert(u.has(added.slab));
    assert(added.first matches Some(first) ==> u.has(first));
    assert forall|slab: PSlab| #[trigger] added.heap.mem.all_slots(slab) == h.mem.all_slots(slab) by {
        assert(added.heap.mem.all_slots(slab) =~= h.mem.all_slots(slab));
    }
}

/// Writing to a slot that is in use, be it an object or what is left of one, leaves a
/// well-formed heap in which the same slots are free.
pub proof fn law_write<T>(h: Heap<T>, slot: PSlot, cell: Slot<T>)
    requires
        h.wf(),
        h.mem.is_slot(slot),
        !h.available(slot),
    ensures
        ({
            let after = Heap { mem: h.mem.with_cell(slot, cell), ..h };
            &&& after.wf()
            &&& after.mem.cell(slot) == cell
            &&& forall|other: PSlot| #[trigger] after.available(other) == h.available(other)
            &&& forall|slab: PSlab| #[trigger] after.listed(slab) == h.listed(slab)
            &&& forall|other: PSlot| #[trigger]
                h.mem.is_slot(other) ==> after.mem.is_slot(other) && (other != slot
                    ==> after.mem.cell(other) == h.mem.cell(other))
        }),
{
    let w = h.lists();
    let after = Heap { mem: h.mem.with_cell(slot, cell), ..h };
    h.lemma_available(w);
    h.lemma_write(w, slot, cell);
    after.lemma_available(w);
    h.mem.lemma_cell_frame(slot, cell);
}

/// Whether every slot in `live` is in use.
pub open spec fn in_use<T>(h: Heap<T>, live: Set<PSlot>) -> bool {
    forall|slot: PSlot| #[trigger] live.contains(slot) ==> h.mem.is_slot(slot) && !h.available(slot)
}

/// No slot is handed out twice: an allocation hands out none of the slots that are in use,
/// leaves what they hold as it is, and all of them, with the new one, are in use afterwards.
pub proof fn law_alloc_spares_live<T>(h: Heap<T>, mapping: Option<usize>, live: Set<PSlot>)
    requires
        h.wf(),
        h.usable(mapping),
        in_use(h, live),
    ensures
        in_use(h.try_alloc(mapping).0, live),
        h.try_alloc(mapping).1 matches Ok(allocation) ==> {
            let slot = PSlot { ptr: allocation.ptr };
            &&& !live.contains(slot)
            &&& in_use(h.try_alloc(mapping).0, live.insert(slot))
        },
        forall|slot: PSlot| #[trigger]
            live.contains(slot) ==> h.try_alloc(mapping).0.mem.cell(slot) == h.mem.cell(slot),
{
    law_alloc(h, mapping);
    let after = h.try_alloc(mapping).0;
    assert forall|slot: PSlot| #[trigger] live.contains(slot) implies after.mem.is_slot(slot)
        && !after.available(slot) && after.mem.cell(slot) == h.mem.cell(slot) by {
        assert(h.mem.is_slot(slot));
    }
}

/// Giving back a slot leaves the other slots that are in use so, with what they hold.
pub proof fn law_free_spares_live<T>(h: Heap<T>, slot: PSlot, live: Set<PSlot>)
    requires
        h.wf(),
        in_use(h, live),
        live.contains(slot),
        h.free_keeps(slot),
    ensures
        in_use(h.free_unchecked(slot), live.remove(slot)),
        forall|other: PSlot| #[trigger]
            live.contains(other) && other != slot ==> h.free_unchecked(slot).mem.cell(other)
                == h.mem.cell(other),
{
    law_free(h, slot);
    let after = h.free_unchecked(slot);
    assert forall|other: PSlot| #[trigger] live.remove(slot).contains(other) implies after.mem.is_slot(
        other,
    ) && !after.available(other) by {
        assert(h.mem.is_slot(other));
    }
}

/// A slot that was given back is the next one to be handed out, if it lies in the slab that
/// slots are taken from. It holds no object then.
pub proof fn law_free_then_alloc<T>(h: Heap<T>, slot: PSlot, mapping: Option<usize>)
    requires
        h.wf(),
        h.mem.is_slot(slot),
        !h.available(slot),
        h.current() == Some(h.mem.slab_of(slot)),
    ensures
        ({
            let (after, result) = h.free_unchecked(slot).try_alloc(mapping);
            &&& result == Ok::<Allocation, SlabError>(
                Allocation { ptr: slot.ptr, trim: no_trim() },
            )
            &&& after.free == h.free
            &&& after.mem == h.mem.with_cell(slot, Slot::Vacant { next: h.free })
        }),
{
    let w = h.lists();
    h.mem.lemma_cell_frame(slot, Slot::Vacant { next: h.free });
}

/// A slot that is given back right after it was handed out leaves the heap as it was, unless
/// it was the last free one of its slab.
pub proof fn law_alloc_then_free<T>(h: Heap<T>, mapping: Option<usize>)
    requires
        h.wf(),
        h.free is Some,
        h.mem.cell(h.free->0)->next is Some,
    ensures
        h.try_alloc(mapping).0.free_unchecked(h.free->0) == h,
        h.try_alloc(mapping).1 is Ok,
        h.try_alloc(mapping).1->Ok_0.ptr == h.free->0.ptr,
{
    let w = h.lists();
    h.lemma_head(w);
    let slot = h.free->0;
    let slab = w.free[0];
    h.mem.lemma_list_at(slab, h.free, w.slots[slab], 1);
    lemma_div_pos_is_pos(h.mem.slot_offset(slot), h.mem.geo.slot_size as int);
    let state = h.mem.slabs[slab];
    assert(state.slots.update(h.mem.index_of(slot), h.mem.cell(slot)) =~= state.slots);
    assert(h.mem.with_cell(slot, h.mem.cell(slot)).slabs =~= h.mem.slabs);
}

/// When the allocator goes, it unmaps every slab that is in a list, once, and no other.
pub proof fn law_release<T>(h: Heap<T>)
    requires
        h.wf(),
    ensures
        h.released().no_duplicates(),
        forall|slab: PSlab| #[trigger] h.released().contains(slab) <==> h.listed(slab),
        forall|slab: PSlab| #[trigger] h.listed(slab) ==> h.mem.slabs.contains_key(slab),
{
    let w = h.lists();
    assert(h.has_lists(w));
    h.lemma_available(w);
    h.mem.lemma_chain_unique(h.current(), h.mem.chain(h.current()), w.free);
    h.mem.lemma_chain_unique(h.full, h.mem.chain(h.full), w.full);
    h.mem.lemma_chain_start(h.current(), w.free);
    h.mem.lemma_chain_start(h.full, w.full);
    let all = h.released();
    assert(all == w.free + w.full);
    assert forall|slab: PSlab| #[trigger] all.contains(slab) <==> h.listed(slab) by {
        if w.free.contains(slab) {
            assert(all[w.free.index_of(slab)] == slab);
        }
        if w.full.contains(slab) {
            assert(all[w.free.len() + w.full.index_of(slab)] == slab);
        }
        if all.contains(slab) {
            let i = all.index_of(slab);
            if i < w.free.len() {
                assert(w.free[i] == slab);
            } else {
                assert(w.full[i - w.free.len()] == slab);
            }
        }
    }
    assert forall|i: int, j: int| 0 <= i < j < all.len() implies all[i] != all[j] by {
        if i < w.free.len() && j >= w.free.len() {
            assert(w.free.contains(all[i]));
            assert(w.full.contains(w.full[j - w.free.len()]));
        }
    }
}

/// Whether every mapped slab is in a list, so that its slots get used again and it gets
/// unmapped in the end.
pub open spec fn all_listed<T>(h: Heap<T>) -> bool {
    forall|slab: PSlab| #[trigger] h.mem.slabs.contains_key(slab) ==> h.listed(slab)
}

/// An allocation keeps every slab in a list, unless no slot was at hand before it and none
/// is after it.
pub proof fn law_alloc_keeps_slabs<T>(h: Heap<T>, mapping: Option<usize>)
    requires
        h.wf(),
        h.usable(mapping),
        all_listed(h),
        h.free is Some || h.try_alloc(mapping).0.free is Some,
    ensures
        all_listed(h.try_alloc(mapping).0),
{
    let w = h.lists();
    assert(h.has_lists(w));
    h.lemma_available(w);
    h.lemma_scan_ends(w);
    law_alloc(h, mapping);
    let after = h.try_alloc(mapping).0;
    if h.free is Some {
        h.lemma_head(w);
        if h.mem.cell(h.free->0)->next is None {
            lemma_shift_effect(h, w);
        } else {
            lemma_pop_effect(h, w);
        }
        assert(after.mem.slabs.dom() =~= h.mem.slabs.dom());
    } else {
        match h.reusable() {
            Some(slab) => {
                lemma_reuse_effect(h, w, slab);
                h.lemma_reuse(w, slab);
            },
            None => {
                if mapping is Some {
                    lemma_add_effect(h, w, mapping->0);
                }
            },
        }
    }
    assert forall|slab: PSlab| #[trigger] after.mem.slabs.contains_key(slab) implies after.listed(
        slab,
    ) by {
        if h.mem.slabs.contains_key(slab) {
            assert(h.listed(slab));
        } else {
            assert(h.mem.slabs.dom().contains(slab) == h.mem.slabs.contains_key(slab));
        }
    }
}

/// Giving back a slot keeps every slab in a list.
pub proof fn law_free_keeps_slabs<T>(h: Heap<T>, slot: PSlot)
    requires
        h.wf(),
        h.free is Some,
        h.mem.is_slot(slot),
        !h.available(slot),
        all_listed(h),
    ensures
        all_listed(h.free_unchecked(slot)),
        h.free_unchecked(slot).available(slot),
{
    let w = h.lists();
    h.lemma_available(w);
    let v = h.lemma_free(w, slot);
    let after = h.free_unchecked(slot);
    after.lemma_available(v);
    law_free(h, slot);
    assert forall|slab: PSlab| #[trigger] after.mem.slabs.contains_key(slab) implies after.listed(
        slab,
    ) by {
        assert(h.mem.slabs.contains_key(slab));
        assert(h.listed(slab));
        assert(v.has(slab) == w.has(slab));
    }
}

} // verus!
