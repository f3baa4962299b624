//! The slab allocator.
//!
//! Memory is mapped in slabs, each of which holds a header and slots for objects of one
//! type. Free slots are linked to each other. The slab that a slot belongs to is found by
//! masking the slot's address, which takes slabs that lie at multiples of their length.

pub mod laws;
pub mod layout;
pub mod lists;
pub mod mask;
pub mod memory;
pub mod model;
pub mod operations;
pub mod places;
pub mod runs;
pub mod slabbed;
pub mod steps;

use likely_stable::unlikely;
use vstd::arithmetic::div_mod::lemma_div_pos_is_pos;
use vstd::prelude::*;

use crate::slab::laws::{
    alloc_effect, free_effect, law_add_slab, law_alloc, law_free, law_write, lemma_alloc_defined,
    lemma_alloc_slot, place_effect,
};
use crate::slab::layout::{geometry_for, header_size, slot_size, SlabGeometry};
use crate::slab::mask::lemma_round_up_offset;
use crate::slab::lists::at;
use crate::slab::memory::SlabMemory;
use crate::slab::slabbed::Slabbed;
use crate::slab::model::{Allocation, Heap, Memory, PSlab, PSlot, Region, Slot, Trim};

verus! {

/// `likely_stable::unlikely` returns the condition it is given: it only hints at the
/// branch that is rarely taken.
pub assume_specification [ likely_stable::unlikely ] (b: bool) -> (r: bool)
    ensures
        r == b,
;

/// What the allocator reports when it cannot serve a request.
#[derive(Clone, Copy, PartialEq, Eq, Structural)]
pub struct SlabError;

impl SlabError {
    pub fn message(self) -> (r: &'static str)
        ensures
            r@ == "slab allocation failed"@,
    {
        "slab allocation failed"
    }
}

/// How the allocator is to divide memory.
#[derive(Debug, Clone, Copy, PartialEq, Eq, Structural)]
pub struct SlabAllocatorOptions {
    pub pages_per_slab: usize,
}

/// The number of pages in a slab, unless asked for otherwise.
pub const DEFAULT_PAGES_PER_SLAB: usize = 4;

pub open spec fn default_options() -> SlabAllocatorOptions {
    SlabAllocatorOptions { pages_per_slab: DEFAULT_PAGES_PER_SLAB }
}

impl Default for SlabAllocatorOptions {
    fn default() -> (r: SlabAllocatorOptions)
        ensures
            r == default_options(),
    {
        SlabAllocatorOptions { pages_per_slab: DEFAULT_PAGES_PER_SLAB }
    }
}

/// A request to map memory: how long the mapping is to be, and the alignment that would
/// suit it best.
#[derive(Debug, Clone, Copy, PartialEq, Eq, Structural)]
pub struct MapRequest {
    pub len: usize,
    pub align_hint: usize,
}

/// The memory that slabs take up.
pub open spec fn slab_regions(slabs: Seq<PSlab>, len: usize) -> Seq<Region> {
    slabs.map_values(|slab: PSlab| Region { addr: slab.ptr, len })
}

/// Hands out slots for objects of type `T`.
pub struct SlabAllocator<T> {
    free: Option<PSlot>,
    full: Option<PSlab>,
    mem: SlabMemory<T>,
}

impl<T> View for SlabAllocator<T> {
    type V = Heap<T>;

    closed spec fn view(&self) -> Heap<T> {
        Heap { mem: self.mem@, free: self.free, full: self.full }
    }
}

impl<T> SlabAllocator<T> {
    /// The parts of the allocator belong together.
    pub closed spec fn valid(&self) -> bool {
        &&& self.mem.inv()
        &&& self.mem.geo.wf()
    }

    /// In a valid allocator, header and slots fit into a slab, and two slabs into memory.
    pub proof fn lemma_valid(&self)
        requires
            self.valid(),
        ensures
            self@.mem.geo.wf(),
    {
    }

    /// An allocator without slabs. `page_size` is the size of the pages that memory is
    /// mapped in.
    pub fn new(options: Option<SlabAllocatorOptions>, page_size: usize) -> (r: Result<
        SlabAllocator<T>,
        SlabError,
    >)
        ensures
            ({
                let wanted = match options {
                    Some(options) => options,
                    None => default_options(),
                };
                match geometry_for::<T>(wanted, page_size) {
                    Some(geo) => {
                        &&& r is Ok
                        &&& r->Ok_0.valid()
                        &&& r->Ok_0@.wf()
                        &&& forall|slot: PSlot| !#[trigger] r->Ok_0@.available(slot)
                        &&& r->Ok_0@ == (Heap::<T> {
                            mem: Memory { geo, slabs: Map::empty() },
                            free: None,
                            full: None,
                        })
                    },
                    None => r == Err::<SlabAllocator<T>, SlabError>(SlabError),
                }
            }),
            ({
                let pages = match options {
                    Some(options) => options.pages_per_slab,
                    None => 4usize,
                };
                let len = page_size * pages;
                &&& r is Ok <==> pages % 2 == 0 && 0 < len && 2 * len <= usize::MAX
                    && header_size::<T>() <= isize::MAX && header_size::<T>() + slot_size::<T>()
                    <= len
                &&& r matches Ok(alloc) ==> {
                    let geo = alloc@.mem.geo;
                    &&& geo.slab_len == len
                    &&& geo.slab_alloc == 2 * len
                    &&& geo.header_size + geo.slab_capacity * geo.slot_size <= len
                    &&& len < geo.header_size + (geo.slab_capacity + 1) * geo.slot_size
                    &&& alloc@.free is None && alloc@.full is None
                    &&& forall|slab: PSlab| !#[trigger] alloc@.mem.slabs.contains_key(slab)
                }
            }),
    {
        let options: SlabAllocatorOptions = match options {
            Some(options) => options,
            None => SlabAllocatorOptions::default(),
        };
        let geo: SlabGeometry = match SlabGeometry::new::<T>(options, page_size) {
            Ok(geo) => geo,
            Err(error) => return Err(error),
        };
        let alloc = SlabAllocator { free: None, full: None, mem: SlabMemory::new(geo) };
        proof {
            alloc@.lemma_empty();
        }
        Ok(alloc)
    }

    /// The slot that is handed out next.
    pub fn free(&self) -> (r: Option<PSlot>)
        ensures
            r == self@.free,
    {
        self.free
    }

    /// The first used-up slab.
    pub fn full(&self) -> (r: Option<PSlab>)
        ensures
            r == self@.full,
    {
        self.full
    }

    /// How slabs are laid out.
    pub fn geometry(&self) -> (r: SlabGeometry)
        ensures
            r == self@.mem.geo,
    {
        self.mem.geo
    }

    /// The slabs.
    pub fn memory(&self) -> (r: &SlabMemory<T>)
        requires
            self.valid(),
        ensures
            r@ == self@.mem,
            r.inv(),
    {
        &self.mem
    }

    /// The slab that a slot lies in.
    pub fn slab_of(&self, slot: PSlot) -> (r: PSlab)
        requires
            self.valid(),
            self@.mem.slabs.contains_key(self@.mem.slab_of(slot)),
        ensures
            r == self@.mem.slab_of(slot),
            r.ptr == slot.ptr & self@.mem.geo.slab_mask.bits,
    {
        slot.header(self.mem.geo.slab_mask)
    }

    fn align_hint(&self) -> (r: usize)
        ensures
            r == self@.mem.geo.slab_len,
    {
        self.mem.geo.slab_len
    }

    fn shift_freelist(&mut self, last: PSlot)
        requires
            old(self).valid(),
            old(self)@.mem.slabs.contains_key(old(self)@.mem.slab_of(last)),
            old(self)@.mem.slabs[old(self)@.mem.slab_of(last)].next matches Some(next)
                ==> old(self)@.mem.slabs.contains_key(next),
        ensures
            final(self).valid(),
            final(self)@ == old(self)@.shift_freelist(last),
    {
        let slab: PSlab = self.slab_of(last);
        let next_free_slab: Option<PSlab> = slab.next(&self.mem);

        slab.set_free(&mut self.mem, None);
        slab.set_next(&mut self.mem, self.full);
        self.full = Some(slab);

        if let Some(next_free_slab) = next_free_slab {
            self.free = next_free_slab.free(&self.mem);
        }
    }

    /// The first used-up slab that has a free slot, with the slab ahead of it.
    fn find_reusable(&self) -> (r: Option<(Option<PSlab>, PSlab)>)
        requires
            self.valid(),
            self@.scan_ends(),
        ensures
            match self@.reusable() {
                Some(slab) => r == Some(
                    (
                        if self@.scan().len() > 0 {
                            Some(self@.scan().last())
                        } else {
                            None
                        },
                        slab,
                    ),
                ),
                None => r is None,
            },
    {
        let ghost scan = self@.scan();
        let ghost mut passed: int = 0;
        let mut maybe_slab: Option<PSlab> = self.full;
        let mut prev_slab: Option<PSlab> = None;
        assert(scan.take(0).len() == 0);
        loop
            invariant
                self.valid(),
                self@.is_scan(scan),
                scan == self@.scan(),
                0 <= passed <= scan.len(),
                maybe_slab == self@.scan_stop(scan.take(passed)),
                prev_slab == (if passed > 0 {
                    Some(scan[passed - 1])
                } else {
                    None
                }),
            decreases scan.len() - passed,
        {
            let slab: PSlab = match maybe_slab {
                Some(slab) => slab,
                None => {
                    assert(passed < scan.len() ==> scan.take(passed + 1).last() == scan[passed]);
                    assert(passed > 0 ==> scan.take(passed).last() == scan[passed - 1]);
                    assert(passed == scan.len() ==> scan.take(passed) =~= scan);
                    return None;
                },
            };
            proof {
                if passed < scan.len() {
                    if passed > 0 {
                        assert(scan.take(passed).last() == scan[passed - 1]);
                    }
                    assert(slab == scan[passed]);
                } else {
                    assert(scan.take(passed) =~= scan);
                }
            }
            if slab.free(&self.mem).is_some() {
                return Some((prev_slab, slab));
            }
            prev_slab = Some(slab);
            maybe_slab = slab.next(&self.mem);
            proof {
                passed = passed + 1;
                assert(scan.take(passed).last() == scan[passed - 1]);
            }
        }
    }

    fn reuse_slab(&mut self) -> (r: Option<PSlab>)
        requires
            old(self).valid(),
            old(self)@.scan_ends(),
        ensures
            final(self).valid(),
            r == old(self)@.reusable(),
            final(self)@ == (match r {
                Some(slab) => old(self)@.reuse_slab(slab),
                None => old(self)@,
            }),
    {
        match self.find_reusable() {
            Some((prev_slab, slab)) => {
                let ghost scan = self@.scan();
                assert(self@.is_scan(scan));
                let next_slab: Option<PSlab> = slab.take_next(&mut self.mem);

                self.free = slab.free(&self.mem);

                if let Some(prev_slab) = prev_slab {
                    assert(prev_slab == scan[scan.len() - 1]);
                    prev_slab.set_next(&mut self.mem, next_slab);
                } else {
                    self.full = next_slab;
                }
                Some(slab)
            },
            None => None,
        }
    }

    fn map_slab(&mut self, ptr: usize) -> (r: PSlab)
        requires
            old(self).valid(),
            ptr != 0,
            ptr + old(self)@.mem.geo.slab_len <= usize::MAX,
            old(self)@.head_mapped(),
        ensures
            final(self).valid(),
            r.ptr == ptr,
            final(self)@ == old(self)@.map_slab(ptr),
    {
        let next: Option<PSlab> = match self.free {
            Some(slot) => Some(self.slab_of(slot)),
            None => None,
        };
        let slab: PSlab = PSlab::init(&mut self.mem, ptr, next);
        self.free = slab.free(&self.mem);
        slab
    }

    /// Makes slabs of the memory that `mapping` says was mapped, if it was. Besides the
    /// slabs, returns what is to be unmapped.
    pub fn add_slab_impl(&mut self, mapping: Option<usize>) -> (r: Result<
        (Option<PSlab>, PSlab, Trim),
        SlabError,
    >)
        requires
            old(self).valid(),
            mapping matches Some(mapping) ==> old(self)@.mappable(mapping),
            old(self)@.wf() || old(self)@.head_mapped(),
        ensures
            final(self).valid(),
            old(self)@.wf() && old(self)@.usable(mapping) && old(self)@.synced()
                ==> final(self)@.wf() && final(self)@.synced(),
            match mapping {
                Some(mapping) => {
                    let added = old(self)@.add_slab(mapping);
                    &&& r == Ok::<_, SlabError>((added.first, added.slab, added.trim))
                    &&& final(self)@ == added.heap
                },
                None => {
                    &&& r == Err::<(Option<PSlab>, PSlab, Trim), _>(SlabError)
                    &&& final(self)@ == old(self)@
                },
            },
    {
        let mapping: usize = match mapping {
            Some(mapping) => mapping,
            None => return Err(SlabError),
        };
        let ghost before = self@;
        proof {
            if before.wf() {
                lemma_alloc_defined(before, None);
                if before.usable(Some(mapping)) && before.synced() {
                    law_add_slab(before, mapping);
                }
            }
        }
        let slab_len: usize = self.mem.geo.slab_len;
        let over: usize = mapping % slab_len;
        let aligned_offset: usize = if over == 0 { 0 } else { slab_len - over };
        proof {
            lemma_round_up_offset(mapping, slab_len);
            before.lemma_added_aligned(mapping);
        }
        if aligned_offset == 0 {
            let fst: PSlab = self.map_slab(mapping);
            proof {
                before.mem.lemma_slot_at(PSlab { ptr: mapping }, 0);
            }
            let snd: PSlab = self.map_slab(mapping + slab_len);
            Ok((Some(fst), snd, Trim { head: None, tail: None }))
        } else {
            let slab: PSlab = self.map_slab(mapping + aligned_offset);
            let head = Region { addr: mapping, len: aligned_offset };
            let tail = Region {
                addr: mapping + aligned_offset + slab_len,
                len: slab_len - aligned_offset,
            };
            Ok((None, slab, Trim { head: Some(head), tail: Some(tail) }))
        }
    }

    /// As `add_slab_impl`; returns only the slab that slots come from first.
    pub fn add_slab(&mut self, mapping: Option<usize>) -> (r: Result<(PSlab, Trim), SlabError>)
        requires
            old(self).valid(),
            mapping matches Some(mapping) ==> old(self)@.mappable(mapping),
            old(self)@.wf() || old(self)@.head_mapped(),
        ensures
            final(self).valid(),
            old(self)@.wf() && old(self)@.usable(mapping) && old(self)@.synced()
                ==> final(self)@.wf() && final(self)@.synced(),
            match mapping {
                Some(mapping) => {
                    let added = old(self)@.add_slab(mapping);
                    &&& r == Ok::<_, SlabError>((added.slab, added.trim))
                    &&& final(self)@ == added.heap
                },
                None => {
                    &&& r == Err::<(PSlab, Trim), _>(SlabError)
                    &&& final(self)@ == old(self)@
                },
            },
    {
        match self.add_slab_impl(mapping) {
            Ok((_, slab, trim)) => Ok((slab, trim)),
            Err(error) => Err(error),
        }
    }

    fn alloc_slow(&mut self, mapping: Option<usize>) -> (r: Result<Allocation, SlabError>)
        requires
            old(self).valid(),
            old(self)@.free is None,
            old(self)@.alloc_defined(mapping),
        ensures
            final(self).valid(),
            (final(self)@, r) == old(self)@.try_alloc(mapping),
    {
        let ghost before = self@;
        let (slab, trim): (PSlab, Trim) = match self.reuse_slab() {
            Some(slab) => {
                assert(before.is_scan(before.scan()));
                (slab, Trim { head: None, tail: None })
            },
            None => match self.add_slab(mapping) {
                Ok((slab, trim)) => {
                    proof {
                        before.lemma_added_aligned(mapping->0);
                        before.mem.lemma_slot_at(slab, 0);
                    }
                    (slab, trim)
                },
                Err(error) => return Err(error),
            },
        };
        let alloc: PSlot = slab.free(&self.mem).unwrap();
        self.free = alloc.vacant(&self.mem);

        Ok(Allocation { ptr: alloc.object(), trim })
    }

    /// Takes a free slot. `mapping` is the memory that was mapped on account of
    /// `map_request`, if any.
    pub fn try_alloc(&mut self, mapping: Option<usize>) -> (r: Result<Allocation, SlabError>)
        requires
            old(self).valid(),
            old(self)@.can_alloc(mapping),
        ensures
            final(self).valid(),
            old(self)@.alloc_defined(mapping),
            old(self)@.free matches Some(slot) ==> r == Ok::<Allocation, SlabError>(
                Allocation { ptr: slot.ptr, trim: Trim { head: None, tail: None } },
            ),
            r is Err ==> final(self)@ == old(self)@ && mapping is None,
            (final(self)@, r) == old(self)@.try_alloc(mapping),
            old(self)@.wf() && old(self)@.usable(mapping) ==> {
                &&& final(self)@.wf()
                &&& r is Ok <==> mapping is Some || exists|slot: PSlot| old(self)@.available(slot)
                &&& r matches Ok(allocation) ==> alloc_effect(
                    old(self)@,
                    final(self)@,
                    allocation.ptr,
                )
            },
    {
        proof {
            if self@.wf() {
                if !self@.alloc_defined(mapping) {
                    lemma_alloc_defined(self@, mapping);
                }
                if self@.usable(mapping) {
                    law_alloc(self@, mapping);
                }
            }
        }
        let free: PSlot = match self.free {
            Some(free) => free,
            None => return self.alloc_slow(mapping),
        };

        let next_free: Option<PSlot> = free.vacant(&self.mem);
        self.free = next_free;
        if unlikely(next_free.is_none()) {
            self.shift_freelist(free);
        }

        Ok(Allocation { ptr: free.object(), trim: Trim { head: None, tail: None } })
    }

    /// Whether the next allocation needs memory to be mapped, and how much.
    pub fn map_request(&self) -> (r: Option<MapRequest>)
        requires
            self.valid(),
            self@.wf() || self@.free is Some || self@.scan_ends(),
        ensures
            r == (if self@.free is None && self@.reusable() is None {
                Some(
                    MapRequest {
                        len: self@.mem.geo.slab_alloc,
                        align_hint: self@.mem.geo.slab_len,
                    },
                )
            } else {
                None
            }),
            self@.wf() ==> (r is Some <==> forall|slot: PSlot| !#[trigger] self@.available(slot)),
    {
        proof {
            if self@.wf() {
                law_alloc(self@, None);
            }
        }
        if self.free.is_some() || self.find_reusable().is_some() {
            None
        } else {
            Some(MapRequest { len: self.mem.geo.slab_alloc, align_hint: self.align_hint() })
        }
    }

    fn must_alloc<U>(result: Result<U, SlabError>) -> (r: U)
        requires
            result is Ok,
        ensures
            r == result->Ok_0,
    {
        match result {
            Ok(value) => value,
            Err(_) => vstd::pervasive::unreached(),
        }
    }

    /// As `try_alloc`, for a caller who knows that it succeeds.
    pub fn allocate(&mut self, mapping: Option<usize>) -> (r: Allocation)
        requires
            old(self).valid(),
            old(self)@.can_alloc(mapping),
            old(self)@.try_alloc(mapping).1 is Ok,
        ensures
            final(self).valid(),
            (final(self)@, Ok::<Allocation, SlabError>(r)) == old(self)@.try_alloc(mapping),
            old(self)@.wf() && old(self)@.usable(mapping) ==> {
                &&& final(self)@.wf()
                &&& alloc_effect(old(self)@, final(self)@, r.ptr)
            },
    {
        Self::must_alloc(self.try_alloc(mapping))
    }

    /// Takes a free slot and stores in it what `ctor` makes. Returns the object, and what is
    /// to be unmapped of the memory mapped for it. `ctor` is called only once there is a slot:
    /// it need not be callable otherwise.
    pub fn try_init<F>(&mut self, ctor: F, mapping: Option<usize>) -> (r: Result<
        (Slabbed<T>, Trim),
        SlabError,
    >) where F: FnOnce() -> T
        requires
            old(self).valid(),
            old(self)@.can_alloc(mapping),
            old(self)@.try_alloc(mapping).1 is Ok ==> call_requires(ctor, ()),
        ensures
            final(self).valid(),
            old(self)@.wf() && old(self)@.usable(mapping) ==> {
                &&& final(self)@.wf()
                &&& r matches Ok(placed) ==> place_effect(
                    old(self)@,
                    final(self)@,
                    placed.0.addr(),
                )
            },
            match old(self)@.try_alloc(mapping) {
                (heap, Ok(allocation)) => {
                    &&& r matches Ok(placed) && placed.0.addr() == allocation.ptr && placed.1
                        == allocation.trim
                    &&& final(self)@.holds_object(allocation.ptr)
                    &&& call_ensures(ctor, (), final(self)@.object(allocation.ptr))
                    &&& final(self)@ == heap.with_object(
                        allocation.ptr,
                        final(self)@.object(allocation.ptr),
                    )
                },
                (heap, Err(error)) => {
                    &&& r == Err::<(Slabbed<T>, Trim), SlabError>(error)
                    &&& final(self)@ == heap
                },
            },
    {
        let ghost before = self@;
        proof {
            if !self@.alloc_defined(mapping) {
                lemma_alloc_defined(self@, mapping);
            }
            lemma_alloc_slot(self@, mapping);
        }
        let allocation: Allocation = match self.try_alloc(mapping) {
            Ok(allocation) => allocation,
            Err(error) => return Err(error),
        };
        let slot: PSlot = PSlot::new(allocation.ptr);
        proof {
            self.lemma_slot_non_null(slot);
        }
        let ghost heap = self@;
        let object: T = ctor();
        let ghost value = object;
        slot.put_object(&mut self.mem, object);
        assert(self@ == heap.with_object(allocation.ptr, value));
        proof {
            lemma_div_pos_is_pos(heap.mem.slot_offset(slot), heap.mem.geo.slot_size as int);
            if before.wf() && before.usable(mapping) {
                law_write(heap, slot, Slot::Occupied { value });
            }
        }
        Ok((Slabbed::from_non_null(allocation.ptr), allocation.trim))
    }

    /// As `try_init`, for a caller who knows that it succeeds.
    pub fn init<F>(&mut self, ctor: F, mapping: Option<usize>) -> (r: (
        Slabbed<T>,
        Trim,
    )) where F: FnOnce() -> T
        requires
            old(self).valid(),
            old(self)@.can_alloc(mapping),
            old(self)@.try_alloc(mapping).1 is Ok,
            call_requires(ctor, ()),
        ensures
            final(self).valid(),
            old(self)@.wf() && old(self)@.usable(mapping) ==> {
                &&& final(self)@.wf()
                &&& place_effect(old(self)@, final(self)@, r.0.addr())
            },
            ({
                let heap = old(self)@.try_alloc(mapping).0;
                let allocation = old(self)@.try_alloc(mapping).1->Ok_0;
                &&& r.0.addr() == allocation.ptr
                &&& r.1 == allocation.trim
                &&& final(self)@.holds_object(allocation.ptr)
                &&& call_ensures(ctor, (), final(self)@.object(allocation.ptr))
                &&& final(self)@ == heap.with_object(
                    allocation.ptr,
                    final(self)@.object(allocation.ptr),
                )
            }),
    {
        Self::must_alloc(self.try_init(ctor, mapping))
    }

    /// Takes a free slot and stores in it what `value` converts to. The conversion is made
    /// only once there is a slot.
    pub fn try_emplace<U>(&mut self, value: U, mapping: Option<usize>) -> (r: Result<
        (Slabbed<T>, Trim),
        SlabError,
    >) where U: Into<T>
        requires
            old(self).valid(),
            old(self)@.can_alloc(mapping),
            old(self)@.try_alloc(mapping).1 is Ok ==> call_requires(U::into, (value,)),
        ensures
            final(self).valid(),
            old(self)@.wf() && old(self)@.usable(mapping) ==> {
                &&& final(self)@.wf()
                &&& r matches Ok(placed) ==> place_effect(
                    old(self)@,
                    final(self)@,
                    placed.0.addr(),
                )
            },
            match old(self)@.try_alloc(mapping) {
                (heap, Ok(allocation)) => {
                    &&& r matches Ok(placed) && placed.0.addr() == allocation.ptr && placed.1
                        == allocation.trim
                    &&& final(self)@.holds_object(allocation.ptr)
                    &&& call_ensures(U::into, (value,), final(self)@.object(allocation.ptr))
                    &&& final(self)@ == heap.with_object(
                        allocation.ptr,
                        final(self)@.object(allocation.ptr),
                    )
                },
                (heap, Err(error)) => {
                    &&& r == Err::<(Slabbed<T>, Trim), SlabError>(error)
                    &&& final(self)@ == heap
                },
            },
    {
        let ctor = move || -> (object: T)
            requires
                call_requires(U::into, (value,)),
            ensures
                call_ensures(U::into, (value,), object),
            { value.into() };
        self.try_init(ctor, mapping)
    }

    /// As `try_emplace`, for a caller who knows that it succeeds.
    pub fn emplace<U>(&mut self, value: U, mapping: Option<usize>) -> (r: (
        Slabbed<T>,
        Trim,
    )) where U: Into<T>
        requires
            old(self).valid(),
            old(self)@.can_alloc(mapping),
            old(self)@.try_alloc(mapping).1 is Ok,
            call_requires(U::into, (value,)),
        ensures
            final(self).valid(),
            old(self)@.wf() && old(self)@.usable(mapping) ==> {
                &&& final(self)@.wf()
                &&& place_effect(old(self)@, final(self)@, r.0.addr())
            },
            ({
                let heap = old(self)@.try_alloc(mapping).0;
                let allocation = old(self)@.try_alloc(mapping).1->Ok_0;
                &&& r.0.addr() == allocation.ptr
                &&& r.1 == allocation.trim
                &&& final(self)@.holds_object(allocation.ptr)
                &&& call_ensures(U::into, (value,), final(self)@.object(allocation.ptr))
                &&& final(self)@ == heap.with_object(
                    allocation.ptr,
                    final(self)@.object(allocation.ptr),
                )
            }),
    {
        Self::must_alloc(self.try_emplace(value, mapping))
    }

    /// Appends the slabs of a chain, as memory to be unmapped.
    fn collect_chain(&self, start: Option<PSlab>, regions: &mut Vec<Region>)
        requires
            self.valid(),
            self@.mem.chain_ends(start),
        ensures
            final(regions)@ == old(regions)@ + slab_regions(
                self@.mem.chain(start),
                self@.mem.geo.slab_len,
            ),
    {
        let ghost chain = self@.mem.chain(start);
        let slab_len: usize = self.mem.geo.slab_len;
        let ghost before = regions@;
        let ghost mut passed: int = 0;
        let mut maybe_slab: Option<PSlab> = start;
        proof {
            self@.mem.lemma_chain_start(start, chain);
        }
        assert(before + slab_regions(chain.take(0), slab_len) =~= before);
        loop
            invariant
                self.valid(),
                self@.mem.is_chain(start, chain),
                slab_len == self@.mem.geo.slab_len,
                0 <= passed <= chain.len(),
                maybe_slab == at(chain, passed),
                regions@ == before + slab_regions(chain.take(passed), slab_len),
            ensures
                passed == chain.len(),
            decreases chain.len() - passed,
        {
            let slab: PSlab = match maybe_slab {
                Some(slab) => slab,
                None => break ,
            };
            proof {
                self@.mem.lemma_chain_at(start, chain, passed);
                passed = passed + 1;
            }
            maybe_slab = slab.next(&self.mem);
            regions.push(Region { addr: slab.ptr(), len: slab_len });
            assert(regions@ =~= before + slab_regions(chain.take(passed), slab_len));
        }
        assert(chain.take(passed) =~= chain);
    }

    /// Takes the allocator apart. Returns the slabs, which are to be unmapped. Objects that
    /// are still in slots are forgotten, not dropped.
    pub fn release(self) -> (r: Vec<Region>)
        requires
            self.valid(),
            self@.wf() || (self@.mem.chain_ends(self@.current()) && self@.mem.chain_ends(
                self@.full,
            ) && self@.head_mapped()),
        ensures
            r@ == slab_regions(self@.released(), self@.mem.geo.slab_len),
            r@.len() == self@.released().len(),
            forall|i: int|
                #![trigger r@[i]]
                0 <= i < r@.len() ==> r@[i].addr == self@.released()[i].ptr && r@[i].len
                    == self@.mem.geo.slab_len,
    {
        let this = self;
        proof {
            if this@.wf() {
                let w = this@.lists();
                assert(this@.mem.is_chain(this@.current(), w.free));
                assert(this@.mem.is_chain(this@.full, w.full));
                lemma_alloc_defined(this@, None);
            }
        }
        let mut regions: Vec<Region> = Vec::new();
        let first: Option<PSlab> = match this.free {
            Some(slot) => Some(this.slab_of(slot)),
            None => None,
        };
        this.collect_chain(first, &mut regions);
        this.collect_chain(this.full, &mut regions);
        assert(regions@ =~= slab_regions(self@.released(), self@.mem.geo.slab_len));
        regions
    }

    /// No slot lies at address zero.
    proof fn lemma_slot_non_null(&self, slot: PSlot)
        requires
            self.valid(),
            self@.mem.is_slot(slot),
        ensures
            slot.ptr != 0,
    {
        let mask = self.mem.geo.slab_mask.bits;
        let ptr = slot.ptr;
        assert(self.mem.index@.contains_key(ptr & mask));
        assert(0usize & mask == 0) by (bit_vector);
    }

    /// Gives back the slot at `slot`.
    pub fn free_unchecked(&mut self, slot: usize)
        requires
            old(self).valid(),
            old(self)@.mem.is_slot(PSlot { ptr: slot }),
            old(self)@.wf() || old(self)@.head_mapped(),
        ensures
            final(self).valid(),
            final(self)@ == old(self)@.free_unchecked(PSlot { ptr: slot }),
            old(self)@.free is None ==> {
                &&& final(self)@.free == Some(PSlot { ptr: slot })
                &&& final(self)@.full == old(self)@.full
                &&& final(self)@.mem == old(self)@.mem
            },
            final(self)@.free is Some,
            old(self)@.wf() && !old(self)@.available(PSlot { ptr: slot }) && old(self)@.free_keeps(
                PSlot { ptr: slot },
            ) ==> {
                &&& final(self)@.wf()
                &&& free_effect(old(self)@, final(self)@, PSlot { ptr: slot })
            },
    {
        let slot: PSlot = PSlot::new(slot);
        proof {
            if self@.wf() {
                lemma_alloc_defined(self@, None);
                if !self@.available(slot) && self@.free_keeps(slot) {
                    law_free(self@, slot);
                }
            }
        }

        let free: PSlot = match self.free {
            Some(free) => free,
            None => {
                self.free = Some(slot);
                return ;
            },
        };

        if unlikely(!self.slab_of(slot).is_same(self.slab_of(free))) {
            return self.free_slow(slot);
        }
        slot.vacate(&mut self.mem, Some(free));
        self.free = Some(slot);
    }

    fn free_slow(&mut self, slot: PSlot)
        requires
            old(self).valid(),
            old(self)@.mem.is_slot(slot),
            old(self)@.free matches Some(free) && old(self)@.mem.slab_of(slot) != old(
                self,
            )@.mem.slab_of(free),
        ensures
            final(self).valid(),
            final(self)@ == old(self)@.free_unchecked(slot),
    {
        let slab: PSlab = self.slab_of(slot);
        let first: Option<PSlot> = slab.free(&self.mem);
        slab.set_free(&mut self.mem, Some(slot));
        slot.vacate(&mut self.mem, first);
    }
}

impl<T> SlabAllocator<T> {
    /// The object in a slot.
    pub(crate) fn object_ref(&self, slot: PSlot) -> (r: &T)
        requires
            self.valid(),
            self@.holds_object(slot.ptr),
        ensures
            *r == self@.object(slot.ptr),
    {
        slot.object_ref(&self.mem)
    }

    /// Takes the object out of a slot.
    pub(crate) fn take_object(&mut self, slot: PSlot) -> (r: T)
        requires
            old(self).valid(),
            old(self)@.holds_object(slot.ptr),
        ensures
            final(self).valid(),
            r == old(self)@.object(slot.ptr),
            final(self)@ == (Heap {
                mem: old(self)@.mem.with_cell(slot, Slot::Spent),
                ..old(self)@
            }),
    {
        slot.take_object(&mut self.mem)
    }

    /// The object in a slot, to be changed.
    pub(crate) fn object_mut(&mut self, slot: PSlot) -> (r: &mut T)
        requires
            old(self).valid(),
            old(self)@.holds_object(slot.ptr),
        ensures
            *r == old(self)@.object(slot.ptr),
            final(self).valid(),
            final(self)@ == old(self)@.with_object(slot.ptr, *final(r)),
    {
        slot.object_mut(&mut self.mem)
    }
}

} // verus!
