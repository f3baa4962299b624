//! The lists that the allocator keeps: of slabs with free slots, of used-up slabs, and of
//! the free slots of each slab. A well-formed heap is one in which they are lists indeed:
//! finite, apart from each other, and made of free slots.

use vstd::arithmetic::div_mod::{lemma_div_pos_is_pos, lemma_fundamental_div_mod};
use vstd::arithmetic::power2::is_pow2;
use vstd::prelude::*;

use crate::slab::model::{Heap, Memory, PSlab, PSlot, SlabState, Slot};

verus! {

/// The item at a place of a sequence, if there is one.
pub open spec fn at<A>(s: Seq<A>, i: int) -> Option<A> {
    if 0 <= i < s.len() {
        Some(s[i])
    } else {
        None
    }
}

impl<T> Memory<T> {
    /// Whether following the headers from `start` leads through `slabs` and then ends.
    #[verifier::opaque]
    pub open spec fn is_chain(self, start: Option<PSlab>, slabs: Seq<PSlab>) -> bool {
        &&& start == at(slabs, 0)
        &&& forall|i: int|
            0 <= i < slabs.len() ==> {
                &&& self.slabs.contains_key(#[trigger] slabs[i])
                &&& self.slabs[slabs[i]].next == at(slabs, i + 1)
            }
    }

    /// Whether following the links from `start` leads through `slots`, all of them of the
    /// given slab, and then ends.
    #[verifier::opaque]
    pub open spec fn is_list(self, slab: PSlab, start: Option<PSlot>, slots: Seq<PSlot>) -> bool {
        &&& start == at(slots, 0)
        &&& slots.no_duplicates()
        &&& forall|i: int|
            0 <= i < slots.len() ==> {
                &&& self.is_slot(#[trigger] slots[i])
                &&& self.slab_of(slots[i]) == slab
                &&& self.cell(slots[i]) == (Slot::<T>::Vacant { next: at(slots, i + 1) })
            }
    }

    /// Every slab lies at a multiple of the slab length and has all of its slots.
    pub open spec fn wf(self) -> bool {
        &&& self.geo.wf()
        &&& forall|slab: PSlab| #[trigger]
            self.slabs.contains_key(slab) ==> {
                &&& is_pow2(self.geo.slab_len as int)
                &&& self.aligned(slab)
                &&& self.slabs[slab].slots.len() == self.geo.slab_capacity
            }
    }

    /// Whether following the headers from `start` comes to an end.
    pub open spec fn chain_ends(self, start: Option<PSlab>) -> bool {
        exists|slabs: Seq<PSlab>| self.is_chain(start, slabs)
    }

    /// The slabs that following the headers from `start` leads through.
    pub open spec fn chain(self, start: Option<PSlab>) -> Seq<PSlab> {
        choose|slabs: Seq<PSlab>| self.is_chain(start, slabs)
    }

    /// All slots of a slab, in order.
    pub open spec fn all_slots(self, slab: PSlab) -> Seq<PSlot> {
        Seq::new(self.geo.slab_capacity as nat, |i: int| self.slot_at(slab, i))
    }

    /// From one start there is only one chain.
    pub proof fn lemma_chain_unique(self, start: Option<PSlab>, a: Seq<PSlab>, b: Seq<PSlab>)
        requires
            self.is_chain(start, a),
            self.is_chain(start, b),
        ensures
            a == b,
    {
        assert forall|i: int| 0 <= i implies at(a, i) == at(b, i) by {
            self.lemma_chain_unique_at(start, a, b, i);
        }
        if a.len() < b.len() {
            assert(at(a, a.len() as int) == at(b, a.len() as int));
        }
        if b.len() < a.len() {
            assert(at(a, b.len() as int) == at(b, b.len() as int));
        }
        assert forall|i: int| 0 <= i < a.len() implies a[i] == b[i] by {
            assert(at(a, i) == at(b, i));
        }
        assert(a =~= b);
    }

    proof fn lemma_chain_unique_at(
        self,
        start: Option<PSlab>,
        a: Seq<PSlab>,
        b: Seq<PSlab>,
        i: int,
    )
        requires
            self.is_chain(start, a),
            self.is_chain(start, b),
            0 <= i,
        ensures
            at(a, i) == at(b, i),
        decreases i,
    {
        reveal(Memory::is_chain);
        if i > 0 {
            self.lemma_chain_unique_at(start, a, b, i - 1);
            if i - 1 < a.len() {
                assert(self.slabs[a[i - 1]].next == at(a, i));
            }
        }
    }

    /// From one start there is only one list.
    pub proof fn lemma_list_unique(
        self,
        slab: PSlab,
        start: Option<PSlot>,
        a: Seq<PSlot>,
        b: Seq<PSlot>,
    )
        requires
            self.is_list(slab, start, a),
            self.is_list(slab, start, b),
        ensures
            a == b,
    {
        assert forall|i: int| 0 <= i implies at(a, i) == at(b, i) by {
            self.lemma_list_unique_at(slab, start, a, b, i);
        }
        if a.len() < b.len() {
            assert(at(a, a.len() as int) == at(b, a.len() as int));
        }
        if b.len() < a.len() {
            assert(at(a, b.len() as int) == at(b, b.len() as int));
        }
        assert forall|i: int| 0 <= i < a.len() implies a[i] == b[i] by {
            assert(at(a, i) == at(b, i));
        }
        assert(a =~= b);
    }

    proof fn lemma_list_unique_at(
        self,
        slab: PSlab,
        start: Option<PSlot>,
        a: Seq<PSlot>,
        b: Seq<PSlot>,
        i: int,
    )
        requires
            self.is_list(slab, start, a),
            self.is_list(slab, start, b),
            0 <= i,
        ensures
            at(a, i) == at(b, i),
        decreases i,
    {
        reveal(Memory::is_list);
        if i > 0 {
            self.lemma_list_unique_at(slab, start, a, b, i - 1);
            if i - 1 < a.len() {
                assert(self.cell(a[i - 1]) == (Slot::<T>::Vacant { next: at(a, i) }));
            }
        }
    }

    /// What a chain says of one of its slabs.
    pub proof fn lemma_chain_at(self, start: Option<PSlab>, slabs: Seq<PSlab>, i: int)
        requires
            self.is_chain(start, slabs),
            0 <= i < slabs.len(),
        ensures
            self.slabs.contains_key(slabs[i]),
            self.slabs[slabs[i]].next == at(slabs, i + 1),
            slabs.contains(slabs[i]),
    {
        reveal(Memory::is_chain);
    }

    /// Where a chain starts.
    pub proof fn lemma_chain_start(self, start: Option<PSlab>, slabs: Seq<PSlab>)
        requires
            self.is_chain(start, slabs),
        ensures
            start == at(slabs, 0),
            forall|slab: PSlab| #[trigger] slabs.contains(slab) ==> self.slabs.contains_key(slab),
    {
        reveal(Memory::is_chain);
        assert forall|slab: PSlab| #[trigger] slabs.contains(slab) implies self.slabs.contains_key(
            slab,
        ) by {
            let i = slabs.index_of(slab);
            assert(slabs[i] == slab);
        }
    }

    /// What a list says of one of its slots.
    pub proof fn lemma_list_at(self, slab: PSlab, start: Option<PSlot>, slots: Seq<PSlot>, i: int)
        requires
            self.is_list(slab, start, slots),
            0 <= i < slots.len(),
        ensures
            start == Some(slots[0]),
            self.is_slot(slots[i]),
            self.slab_of(slots[i]) == slab,
            self.cell(slots[i]) == (Slot::<T>::Vacant { next: at(slots, i + 1) }),
            slots.contains(slots[i]),
    {
        reveal(Memory::is_list);
    }

    /// The empty list starts nowhere.
    pub proof fn lemma_list_empty(self, slab: PSlab, start: Option<PSlot>, slots: Seq<PSlot>)
        ensures
            slots.len() == 0 ==> self.is_list(slab, start, slots) == (start is None),
            self.is_list(slab, start, slots) ==> (start is None <==> slots.len() == 0),
    {
        reveal(Memory::is_list);
    }

    /// Whether two memories differ in the headers of slabs only.
    pub open spec fn same_slots(self, other: Memory<T>) -> bool {
        &&& self.geo == other.geo
        &&& self.slabs.dom() == other.slabs.dom()
        &&& forall|slab: PSlab| #[trigger]
            self.slabs.contains_key(slab) ==> self.slabs[slab].slots == other.slabs[slab].slots
    }

    /// Headers have no part in what slots hold.
    pub proof fn lemma_same_cells(self, other: Memory<T>)
        requires
            self.same_slots(other),
        ensures
            self.wf() == other.wf(),
            forall|slot: PSlot| #[trigger] self.is_slot(slot) == other.is_slot(slot),
            forall|slot: PSlot|
                self.is_slot(slot) ==> #[trigger] other.cell(slot) == self.cell(slot),
    {
        assert forall|slab: PSlab| self.slabs.contains_key(slab) == #[trigger] other.slabs.contains_key(slab) by {
            assert(self.slabs.dom().contains(slab) == other.slabs.dom().contains(slab));
        }
        assert forall|slot: PSlot| #[trigger] self.is_slot(slot) == other.is_slot(slot) by {
            assert(self.slab_of(slot) == other.slab_of(slot));
        }
    }

    /// Headers have no part in lists of slots.
    pub proof fn lemma_same_lists(self, other: Memory<T>)
        requires
            self.same_slots(other),
        ensures
            self.wf() == other.wf(),
            forall|slab: PSlab, start: Option<PSlot>, slots: Seq<PSlot>|
                self.is_list(slab, start, slots) == #[trigger] other.is_list(slab, start, slots),
    {
        reveal(Memory::is_list);
        self.lemma_same_cells(other);
        assert forall|slab: PSlab, start: Option<PSlot>, slots: Seq<PSlot>|
            self.is_list(slab, start, slots) == #[trigger] other.is_list(slab, start, slots) by {
            assert forall|i: int| 0 <= i < slots.len() implies self.is_slot(#[trigger] slots[i])
                == other.is_slot(slots[i]) && (self.is_slot(slots[i]) ==> self.cell(slots[i])
                == other.cell(slots[i])) && self.slab_of(slots[i]) == other.slab_of(slots[i]) by {}
        }
    }

    /// Writing to one slot leaves the others as they are.
    pub proof fn lemma_cell_frame(self, slot: PSlot, cell: Slot<T>)
        requires
            self.wf(),
            self.is_slot(slot),
        ensures
            self.with_cell(slot, cell).wf(),
            self.with_cell(slot, cell).cell(slot) == cell,
            forall|other: PSlot| #[trigger]
                self.with_cell(slot, cell).is_slot(other) == self.is_slot(other),
            forall|other: PSlot|
                self.is_slot(other) && other != slot ==> #[trigger] self.with_cell(
                    slot,
                    cell,
                ).cell(other) == self.cell(other),
    {
        assert(0 <= self.index_of(slot)) by {
            lemma_div_pos_is_pos(self.slot_offset(slot), self.geo.slot_size as int);
        }
        assert forall|other: PSlot| self.is_slot(other) && other != slot implies #[trigger]
            self.with_cell(slot, cell).cell(other) == self.cell(other) by {
            if self.slab_of(other) == self.slab_of(slot) && self.index_of(other) == self.index_of(
                slot,
            ) {
                self.lemma_slot_injective(slot, other);
            }
        }
    }

    /// Two slots of one slab with one number are the same slot.
    pub proof fn lemma_slot_injective(self, a: PSlot, b: PSlot)
        requires
            self.geo.wf(),
            self.is_slot(a),
            self.is_slot(b),
            self.slab_of(a) == self.slab_of(b),
            self.index_of(a) == self.index_of(b),
        ensures
            a == b,
    {
        lemma_fundamental_div_mod(self.slot_offset(a), self.geo.slot_size as int);
        lemma_fundamental_div_mod(self.slot_offset(b), self.geo.slot_size as int);
    }
}

/// The lists of a heap.
pub struct Lists {
    /// The slabs with free slots; slots come from the first.
    pub free: Seq<PSlab>,
    /// The slabs that were used up.
    pub full: Seq<PSlab>,
    /// The free slots of each of these slabs.
    pub slots: Map<PSlab, Seq<PSlot>>,
}

impl Lists {
    /// Whether a slab is in one of the two lists of slabs.
    pub open spec fn has(self, slab: PSlab) -> bool {
        self.free.contains(slab) || self.full.contains(slab)
    }
}

impl<T> Heap<T> {
    /// Where the free slots of a slab start. While slots are taken from a slab, its header
    /// is not kept up to date.
    pub open spec fn first_free(self, slab: PSlab) -> Option<PSlot> {
        if self.current() == Some(slab) {
            self.free
        } else {
            self.mem.slabs[slab].free
        }
    }

    /// Whether `w` are the lists of this heap.
    pub open spec fn has_lists(self, w: Lists) -> bool {
        &&& self.mem.wf()
        &&& self.mem.is_chain(self.current(), w.free)
        &&& self.mem.is_chain(self.full, w.full)
        &&& w.free.no_duplicates()
        &&& w.full.no_duplicates()
        &&& forall|slab: PSlab| !(w.free.contains(slab) && #[trigger] w.full.contains(slab))
        &&& forall|slab: PSlab| #[trigger]
            w.free.contains(slab) ==> {
                &&& self.mem.is_list(slab, self.first_free(slab), w.slots[slab])
                &&& w.slots[slab].len() > 0
            }
        &&& forall|slab: PSlab| #[trigger]
            w.full.contains(slab) ==> self.mem.is_list(
                slab,
                self.mem.slabs[slab].free,
                w.slots[slab],
            )
    }

    /// The slabs that are unmapped when the allocator goes: first those with free slots, then
    /// the used-up ones.
    pub open spec fn released(self) -> Seq<PSlab> {
        self.mem.chain(self.current()) + self.mem.chain(self.full)
    }

    /// Whether the heap is well-formed: its lists are finite and apart from each other, and
    /// what they hold are free slots.
    pub open spec fn wf(self) -> bool {
        exists|w: Lists| self.has_lists(w)
    }

    /// The lists of a well-formed heap.
    pub open spec fn lists(self) -> Lists {
        choose|w: Lists| self.has_lists(w)
    }

    /// Whether a slab is in one of the lists of slabs. Slots of others are not handed out.
    #[verifier::opaque]
    pub open spec fn listed(self, slab: PSlab) -> bool {
        self.lists().has(slab)
    }

    /// Whether a slot is free, and will be handed out.
    #[verifier::opaque]
    pub open spec fn available(self, slot: PSlot) -> bool {
        &&& self.lists().has(self.mem.slab_of(slot))
        &&& self.lists().slots[self.mem.slab_of(slot)].contains(slot)
    }

    /// A heap has only one set of lists.
    pub proof fn lemma_lists_unique(self, v: Lists, w: Lists)
        requires
            self.has_lists(v),
            self.has_lists(w),
        ensures
            v.free == w.free,
            v.full == w.full,
            forall|slab: PSlab| #[trigger] w.has(slab) ==> v.slots[slab] == w.slots[slab],
    {
        self.mem.lemma_chain_unique(self.current(), v.free, w.free);
        self.mem.lemma_chain_unique(self.full, v.full, w.full);
        assert forall|slab: PSlab| #[trigger] w.has(slab) implies v.slots[slab] == w.slots[slab] by {
            if w.free.contains(slab) {
                self.mem.lemma_list_unique(
                    slab,
                    self.first_free(slab),
                    v.slots[slab],
                    w.slots[slab],
                );
            } else {
                self.mem.lemma_list_unique(
                    slab,
                    self.mem.slabs[slab].free,
                    v.slots[slab],
                    w.slots[slab],
                );
            }
        }
    }

    /// With lists in hand, it is well-formed, and they say what is free.
    pub proof fn lemma_available(self, w: Lists)
        requires
            self.has_lists(w),
        ensures
            self.wf(),
            forall|slab: PSlab| #[trigger] self.listed(slab) == w.has(slab),
            forall|slot: PSlot| #[trigger]
                self.available(slot) <==> w.has(self.mem.slab_of(slot)) && w.slots[self.mem.slab_of(
                    slot,
                )].contains(slot),
    {
        reveal(Heap::listed);
        reveal(Heap::available);
        self.lemma_lists_unique(self.lists(), w);
        assert forall|slot: PSlot| #[trigger]
            self.available(slot) <==> w.has(self.mem.slab_of(slot)) && w.slots[self.mem.slab_of(
                slot,
            )].contains(slot) by {
            assert(self.lists().has(self.mem.slab_of(slot)) == w.has(self.mem.slab_of(slot)));
        }
    }

    /// A heap without slabs is well-formed, and nothing in it is free.
    pub proof fn lemma_empty(self)
        requires
            self.mem.geo.wf(),
            self.mem.slabs == Map::<PSlab, SlabState<T>>::empty(),
            self.free is None,
            self.full is None,
        ensures
            self.wf(),
            forall|slot: PSlot| !#[trigger] self.available(slot),
    {
        reveal(Memory::is_chain);
        let w = Lists { free: Seq::empty(), full: Seq::empty(), slots: Map::empty() };
        assert(self.has_lists(w));
        self.lemma_available(w);
    }
}

} // verus!
