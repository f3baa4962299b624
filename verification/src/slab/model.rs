//! The mathematical model of the allocator: which slabs are mapped, what their headers
//! and slots hold, and where the free lists start.

use vstd::arithmetic::div_mod::{
    lemma_fundamental_div_mod, lemma_fundamental_div_mod_converse, lemma_mod_multiples_basic,
};
use vstd::arithmetic::power2::is_pow2;
use vstd::prelude::*;

use crate::slab::layout::SlabGeometry;
use crate::slab::mask::{lemma_mask_rounds_down, lemma_round_up_offset, round_up};
use crate::slab::SlabError;

verus! {

/// The address of a slab.
#[derive(Clone, Copy, PartialEq, Eq, Structural)]
pub struct PSlab {
    pub ptr: usize,
}

/// The address of a slot.
#[derive(Clone, Copy, PartialEq, Eq, Structural)]
pub struct PSlot {
    pub ptr: usize,
}

/// What was last written to a slot: the link to the next free slot, or an object.
/// An object that has been moved out or dropped leaves a spent slot behind.
pub enum Slot<T> {
    Vacant { next: Option<PSlot> },
    Occupied { value: T },
    Spent,
}

/// The contents of one slab.
#[verifier::ext_equal]
pub struct SlabState<T> {
    pub next: Option<PSlab>,
    pub free: Option<PSlot>,
    pub slots: Seq<Slot<T>>,
}

/// The contents of all mapped slabs.
#[verifier::ext_equal]
pub struct Memory<T> {
    pub geo: SlabGeometry,
    pub slabs: Map<PSlab, SlabState<T>>,
}

impl<T> Memory<T> {
    /// The slab that a slot address points into.
    pub open spec fn slab_of(self, slot: PSlot) -> PSlab {
        PSlab { ptr: slot.ptr & self.geo.slab_mask.bits }
    }

    /// The address of slot number `i` of a slab.
    pub open spec fn slot_at(self, slab: PSlab, i: int) -> PSlot {
        PSlot { ptr: (slab.ptr + self.geo.header_size + i * self.geo.slot_size) as usize }
    }

    /// How far behind its slab's header a slot lies.
    pub open spec fn slot_offset(self, slot: PSlot) -> int {
        slot.ptr - self.slab_of(slot).ptr - self.geo.header_size
    }

    /// The number that a slot has in its slab.
    pub open spec fn index_of(self, slot: PSlot) -> int {
        self.slot_offset(slot) / self.geo.slot_size as int
    }

    /// Whether the address is that of a slot of a mapped slab.
    pub open spec fn is_slot(self, slot: PSlot) -> bool {
        &&& self.slabs.contains_key(self.slab_of(slot))
        &&& 0 <= self.slot_offset(slot)
        &&& self.slot_offset(slot) % self.geo.slot_size as int == 0
        &&& self.index_of(slot) < self.slabs[self.slab_of(slot)].slots.len()
    }

    /// What a slot holds.
    pub open spec fn cell(self, slot: PSlot) -> Slot<T> {
        self.slabs[self.slab_of(slot)].slots[self.index_of(slot)]
    }

    pub open spec fn with_slab(self, slab: PSlab, state: SlabState<T>) -> Memory<T> {
        Memory { slabs: self.slabs.insert(slab, state), ..self }
    }

    pub open spec fn with_next(self, slab: PSlab, next: Option<PSlab>) -> Memory<T> {
        self.with_slab(slab, SlabState { next, ..self.slabs[slab] })
    }

    pub open spec fn with_free(self, slab: PSlab, free: Option<PSlot>) -> Memory<T> {
        self.with_slab(slab, SlabState { free, ..self.slabs[slab] })
    }

    pub open spec fn with_cell(self, slot: PSlot, cell: Slot<T>) -> Memory<T> {
        let slab = self.slab_of(slot);
        let state = self.slabs[slab];
        self.with_slab(
            slab,
            SlabState { slots: state.slots.update(self.index_of(slot), cell), ..state },
        )
    }

    /// The slots of a new slab: each links to the one behind it.
    pub open spec fn fresh_slots(self, slab: PSlab) -> Seq<Slot<T>> {
        let capacity = self.geo.slab_capacity as nat;
        Seq::new(
            capacity,
            |i: int|
                Slot::Vacant {
                    next: if i + 1 < capacity {
                        Some(self.slot_at(slab, i + 1))
                    } else {
                        None
                    },
                },
        )
    }
}

impl<T> Memory<T> {
    /// Whether a slab can lie at this address: at a multiple of the slab length.
    pub open spec fn aligned(self, slab: PSlab) -> bool {
        &&& slab.ptr != 0
        &&& slab.ptr as int % self.geo.slab_len as int == 0
        &&& slab.ptr + self.geo.slab_len <= usize::MAX
    }

    /// The slots of an aligned slab lie inside it, and masking leads back to the slab.
    pub proof fn lemma_slot_at(self, slab: PSlab, i: int)
        requires
            self.geo.wf(),
            is_pow2(self.geo.slab_len as int),
            self.aligned(slab),
            0 <= i < self.geo.slab_capacity,
        ensures
            self.slot_at(slab, i).ptr == slab.ptr + self.geo.header_size + i * self.geo.slot_size,
            self.slot_at(slab, i).ptr + self.geo.slot_size <= slab.ptr + self.geo.slab_len,
            self.slab_of(self.slot_at(slab, i)) == slab,
            self.slot_offset(self.slot_at(slab, i)) == i * self.geo.slot_size,
            self.slot_offset(self.slot_at(slab, i)) >= 0,
            self.slot_offset(self.slot_at(slab, i)) % self.geo.slot_size as int == 0,
            self.index_of(self.slot_at(slab, i)) == i,
    {
        let slot = self.geo.slot_size as int;
        let capacity = self.geo.slab_capacity as int;
        let len = self.geo.slab_len;
        let ptr = slab.ptr + self.geo.header_size + i * slot;
        assert(0 <= i * slot && i * slot + slot <= capacity * slot) by (nonlinear_arith)
            requires
                0 <= i < capacity,
                0 < slot,
        ;
        let off = self.geo.header_size + i * slot;
        assert(0 < off && off + slot <= len);
        let q = slab.ptr as int / len as int;
        lemma_fundamental_div_mod(slab.ptr as int, len as int);
        lemma_fundamental_div_mod_converse(ptr, len as int, q, off);
        lemma_mask_rounds_down(ptr as usize, len);
        lemma_mod_multiples_basic(i, slot);
        lemma_fundamental_div_mod_converse(i * slot, slot, i, 0);
    }
}

/// A range of memory.
#[derive(Debug, Clone, Copy, PartialEq, Eq, Structural)]
pub struct Region {
    pub addr: usize,
    pub len: usize,
}

/// The parts of a mapping that no slab takes up. They are to be unmapped.
#[derive(Debug, Clone, Copy, PartialEq, Eq, Structural)]
pub struct Trim {
    pub head: Option<Region>,
    pub tail: Option<Region>,
}

/// A slot that was handed out, and what is to be unmapped of the memory mapped for it.
#[derive(Debug, Clone, Copy, PartialEq, Eq, Structural)]
pub struct Allocation {
    pub ptr: usize,
    pub trim: Trim,
}

pub open spec fn no_trim() -> Trim {
    Trim { head: None, tail: None }
}

/// The slabs made of one mapping.
#[verifier::ext_equal]
pub struct Added<T> {
    pub heap: Heap<T>,
    pub first: Option<PSlab>,
    pub slab: PSlab,
    pub trim: Trim,
}

/// The state of the allocator: its memory, the slot it hands out next and the list of
/// slabs that it has used up.
#[verifier::ext_equal]
pub struct Heap<T> {
    pub mem: Memory<T>,
    pub free: Option<PSlot>,
    pub full: Option<PSlab>,
}

impl<T> Heap<T> {
    /// The slab of the slot that is handed out next.
    pub open spec fn current(self) -> Option<PSlab> {
        match self.free {
            Some(slot) => Some(self.mem.slab_of(slot)),
            None => None,
        }
    }

    /// Whether the slab of the next slot is there.
    pub open spec fn head_mapped(self) -> bool {
        self.current() matches Some(slab) ==> self.mem.slabs.contains_key(slab)
    }

    /// After the last free slot of a slab is gone: the slab joins the used-up ones, and the
    /// one behind it takes its place.
    pub open spec fn shift_freelist(self, last: PSlot) -> Heap<T> {
        let slab = self.mem.slab_of(last);
        let next = self.mem.slabs[slab].next;
        let mem = self.mem.with_free(slab, None).with_next(slab, self.full);
        Heap {
            mem,
            full: Some(slab),
            free: match next {
                Some(next) => mem.slabs[next].free,
                None => self.free,
            },
        }
    }

    /// Where the walk along the used-up slabs goes from those in `passed`.
    pub open spec fn scan_stop(self, passed: Seq<PSlab>) -> Option<PSlab> {
        if passed.len() == 0 {
            self.full
        } else {
            self.mem.slabs[passed.last()].next
        }
    }

    /// Whether a walk along the used-up slabs passes those in `passed`, which have no free
    /// slot, and then comes to one that has, or to the end.
    pub open spec fn is_scan(self, passed: Seq<PSlab>) -> bool {
        &&& passed.len() > 0 ==> self.full == Some(passed[0])
        &&& forall|i: int|
            0 <= i < passed.len() ==> {
                &&& self.mem.slabs.contains_key(#[trigger] passed[i])
                &&& self.mem.slabs[passed[i]].free is None
                &&& i + 1 < passed.len() ==> self.mem.slabs[passed[i]].next == Some(passed[i + 1])
            }
        &&& self.scan_stop(passed) matches Some(slab) ==> {
            &&& self.mem.slabs.contains_key(slab)
            &&& self.mem.slabs[slab].free is Some
        }
    }

    /// Whether the walk along the used-up slabs comes to a stop.
    pub open spec fn scan_ends(self) -> bool {
        exists|passed: Seq<PSlab>| self.is_scan(passed)
    }

    /// The used-up slabs without free slots ahead of the first that has some.
    pub open spec fn scan(self) -> Seq<PSlab> {
        choose|passed: Seq<PSlab>| self.is_scan(passed)
    }

    /// The first used-up slab to which a slot was given back.
    pub open spec fn reusable(self) -> Option<PSlab> {
        self.scan_stop(self.scan())
    }

    /// Takes a slab out of the used-up ones and makes its first free slot the next one.
    pub open spec fn reuse_slab(self, slab: PSlab) -> Heap<T> {
        let passed = self.scan();
        let next = self.mem.slabs[slab].next;
        let mem = self.mem.with_next(slab, None);
        let free = self.mem.slabs[slab].free;
        if passed.len() > 0 {
            Heap { mem: mem.with_next(passed.last(), next), free, full: self.full }
        } else {
            Heap { mem, free, full: next }
        }
    }

    /// A new slab at `ptr`, ahead of the slabs that have free slots.
    pub open spec fn map_slab(self, ptr: usize) -> Heap<T> {
        let slab = PSlab { ptr };
        let first = Some(self.mem.slot_at(slab, 0));
        Heap {
            mem: self.mem.with_slab(
                slab,
                SlabState { next: self.current(), free: first, slots: self.mem.fresh_slots(slab) },
            ),
            free: first,
            full: self.full,
        }
    }

    /// Divides a mapping into slabs: two if it starts at a multiple of the slab length, or
    /// else the one that lies at the first multiple inside it.
    pub open spec fn add_slab(self, mapping: usize) -> Added<T> {
        let len = self.mem.geo.slab_len;
        let offset = round_up(mapping as int, len as int) - mapping;
        let start = (mapping + offset) as usize;
        let end = (mapping + offset + len) as usize;
        if offset == 0 {
            Added {
                heap: self.map_slab(start).map_slab(end),
                first: Some(PSlab { ptr: start }),
                slab: PSlab { ptr: end },
                trim: no_trim(),
            }
        } else {
            Added {
                heap: self.map_slab(start),
                first: None,
                slab: PSlab { ptr: start },
                trim: Trim {
                    head: Some(Region { addr: mapping, len: offset as usize }),
                    tail: Some(Region { addr: end, len: (len - offset) as usize }),
                },
            }
        }
    }

    /// The slabs made of a mapping are aligned.
    pub proof fn lemma_added_aligned(self, mapping: usize)
        requires
            self.mem.geo.wf(),
            self.mappable(mapping),
        ensures
            self.mem.aligned(self.add_slab(mapping).slab),
            self.add_slab(mapping).first matches Some(first) ==> self.mem.aligned(first),
            mapping <= self.add_slab(mapping).slab.ptr,
            self.add_slab(mapping).slab.ptr + self.mem.geo.slab_len <= mapping
                + self.mem.geo.slab_alloc,
    {
        let len = self.mem.geo.slab_len;
        let start = round_up(mapping as int, len as int);
        lemma_round_up_offset(mapping, len);
        lemma_fundamental_div_mod(start, len as int);
        let q = start / len as int;
        assert(start + len == (q + 1) * len) by (nonlinear_arith)
            requires
                start == len * q,
        ;
        lemma_mod_multiples_basic(q + 1, len as int);
    }

    /// Takes the first slot of a slab's own free list.
    pub open spec fn take_first(self, slab: PSlab) -> Heap<T> {
        Heap { free: self.mem.cell(self.mem.slabs[slab].free->0)->next, ..self }
    }

    /// The state after an allocation, and its result. `mapping` is the memory that mapping
    /// a new slab would yield.
    pub open spec fn try_alloc(self, mapping: Option<usize>) -> (
        Heap<T>,
        Result<Allocation, SlabError>,
    ) {
        match self.free {
            Some(slot) => {
                let next = self.mem.cell(slot)->next;
                let rest = Heap { free: next, ..self };
                (
                    if next is None {
                        rest.shift_freelist(slot)
                    } else {
                        rest
                    },
                    Ok(Allocation { ptr: slot.ptr, trim: no_trim() }),
                )
            },
            None => match self.reusable() {
                Some(slab) => (
                    self.reuse_slab(slab).take_first(slab),
                    Ok(
                        Allocation {
                            ptr: self.mem.slabs[slab].free->0.ptr,
                            trim: no_trim(),
                        },
                    ),
                ),
                None => match mapping {
                    Some(mapping) => {
                        let added = self.add_slab(mapping);
                        (
                            added.heap.take_first(added.slab),
                            Ok(
                                Allocation {
                                    ptr: self.mem.slot_at(added.slab, 0).ptr,
                                    trim: added.trim,
                                },
                            ),
                        )
                    },
                    None => (self, Err(SlabError)),
                },
            },
        }
    }

    /// Whether slabs can be made of a mapping at `mapping`.
    pub open spec fn mappable(self, mapping: usize) -> bool {
        &&& is_pow2(self.mem.geo.slab_len as int)
        &&& mapping != 0
        &&& mapping + self.mem.geo.slab_alloc <= usize::MAX
    }

    /// Whether everything that an allocation reads is there: the slot it takes is a linked
    /// one, and the walk along the used-up slabs ends.
    pub open spec fn alloc_defined(self, mapping: Option<usize>) -> bool {
        match self.free {
            Some(slot) => {
                &&& self.mem.is_slot(slot)
                &&& self.mem.cell(slot) is Vacant
                &&& self.mem.cell(slot)->next is None ==> (
                self.mem.slabs[self.mem.slab_of(slot)].next matches Some(next)
                    ==> self.mem.slabs.contains_key(next))
            },
            None => {
                &&& self.scan_ends()
                &&& match self.reusable() {
                    Some(slab) => {
                        &&& self.mem.is_slot(self.mem.slabs[slab].free->0)
                        &&& self.mem.cell(self.mem.slabs[slab].free->0) is Vacant
                    },
                    None => mapping matches Some(mapping) ==> self.mappable(mapping),
                }
            },
        }
    }

    /// The state after `slot` is given back.
    pub open spec fn free_unchecked(self, slot: PSlot) -> Heap<T> {
        let slab = self.mem.slab_of(slot);
        match self.free {
            None => Heap { free: Some(slot), ..self },
            Some(free) => if slab == self.mem.slab_of(free) {
                Heap {
                    mem: self.mem.with_cell(slot, Slot::Vacant { next: Some(free) }),
                    free: Some(slot),
                    full: self.full,
                }
            } else {
                Heap {
                    mem: self.mem.with_free(slab, Some(slot)).with_cell(
                        slot,
                        Slot::Vacant { next: self.mem.slabs[slab].free },
                    ),
                    ..self
                }
            },
        }
    }
}

} // verus!
