//! The memory that the allocator works on: slabs, found by their addresses.

use std::collections::HashMap;
use std::mem::ManuallyDrop;
use std::ops::{Deref, DerefMut};

use vstd::prelude::*;

use crate::pointer::PtrIterMut;
use crate::slab::layout::SlabGeometry;
use crate::slab::mask::SlabMask;
use crate::slab::model::{Memory, PSlab, PSlot, SlabState, Slot};

verus! {

/// `ManuallyDrop::deref_mut` leads to the value inside: what is written through it is what
/// the wrapper holds afterwards.
#[verifier::external_body]
fn inside<T>(m: &mut ManuallyDrop<T>) -> (r: &mut T)
    ensures
        *r == old(m)@,
        final(m)@ == *final(r),
{
    m.deref_mut()
}

/// A slot in memory. An object in it is not dropped with it: slots do not know whether what
/// they hold is in use.
pub enum SlotCell<T> {
    Vacant { next: Option<PSlot> },
    Occupied { value: ManuallyDrop<T> },
    Spent,
}

impl<T> View for SlotCell<T> {
    type V = Slot<T>;

    open spec fn view(&self) -> Slot<T> {
        match *self {
            SlotCell::Vacant { next } => Slot::Vacant { next },
            SlotCell::Occupied { value } => Slot::Occupied { value: value@ },
            SlotCell::Spent => Slot::Spent,
        }
    }
}

/// What slots hold.
pub open spec fn contents<T>(slots: Seq<SlotCell<T>>) -> Seq<Slot<T>> {
    Seq::new(slots.len(), |i: int| slots[i]@)
}

/// The start of a slab: the slab behind it in its list, and its first free slot.
pub struct SlabHeader {
    pub next: Option<PSlab>,
    pub free: Option<PSlot>,
}

/// A mapped slab.
pub struct Slab<T> {
    pub base: PSlab,
    pub header: SlabHeader,
    pub slots: Vec<SlotCell<T>>,
}

impl<T> Slab<T> {
    pub open spec fn state(self) -> SlabState<T> {
        SlabState { next: self.header.next, free: self.header.free, slots: contents(self.slots@) }
    }
}

/// All mapped slabs, with an index from addresses to their places in the vector.
pub struct SlabMemory<T> {
    pub geo: SlabGeometry,
    pub slabs: Vec<Slab<T>>,
    pub index: HashMap<usize, usize>,
}

impl<T> View for SlabMemory<T> {
    type V = Memory<T>;

    open spec fn view(&self) -> Memory<T> {
        Memory {
            geo: self.geo,
            slabs: Map::new(
                |slab: PSlab| self.index@.contains_key(slab.ptr),
                |slab: PSlab| self.slabs@[self.index@[slab.ptr] as int].state(),
            ),
        }
    }
}

impl<T> SlabMemory<T> {
    /// The index leads to the slabs it names.
    pub open spec fn inv(&self) -> bool {
        &&& self.geo.slot_size > 0
        &&& !self.index@.contains_key(0)
        &&& forall|k: usize| #[trigger]
            self.index@.contains_key(k) ==> {
                &&& self.index@[k] < self.slabs@.len()
                &&& self.slabs@[self.index@[k] as int].base.ptr == k
            }
    }

    pub fn new(geo: SlabGeometry) -> (r: SlabMemory<T>)
        requires
            geo.slot_size > 0,
        ensures
            r.inv(),
            r@ == (Memory { geo, slabs: Map::<PSlab, SlabState<T>>::empty() }),
    {
        broadcast use vstd::std_specs::hash::group_hash_axioms;

        let r = SlabMemory { geo, slabs: Vec::new(), index: HashMap::new() };
        assert(r@.slabs =~= Map::<PSlab, SlabState<T>>::empty());
        r
    }

    /// The place of a mapped slab in the vector.
    fn locate(&self, slab: PSlab) -> (r: usize)
        requires
            self.inv(),
            self@.slabs.contains_key(slab),
        ensures
            r == self.index@[slab.ptr],
            r < self.slabs@.len(),
    {
        broadcast use vstd::std_specs::hash::group_hash_axioms;

        *self.index.get(&slab.ptr).unwrap()
    }

    /// The place of a slot in its slab.
    fn place(&self, slot: PSlot) -> (r: (usize, usize))
        requires
            self.inv(),
            self@.is_slot(slot),
        ensures
            r.0 == self.index@[self@.slab_of(slot).ptr],
            r.0 < self.slabs@.len(),
            r.1 == self@.index_of(slot),
            r.1 < self.slabs@[r.0 as int].slots@.len(),
    {
        let base: usize = slot.ptr & self.geo.slab_mask.bits;
        let i: usize = self.locate(PSlab { ptr: base });
        let j: usize = (slot.ptr - base - self.geo.header_size) / self.geo.slot_size;
        (i, j)
    }

    fn set_header(&mut self, slab: PSlab, header: SlabHeader)
        requires
            old(self).inv(),
            old(self)@.slabs.contains_key(slab),
        ensures
            final(self).inv(),
            final(self)@ == old(self)@.with_slab(
                slab,
                (SlabState {
                    next: header.next,
                    free: header.free,
                    slots: old(self)@.slabs[slab].slots,
                }),
            ),
    {
        let i: usize = self.locate(slab);
        self.slabs[i].header = header;
        assert(self@ =~= old(self)@.with_slab(
            slab,
            (SlabState { next: header.next, free: header.free, slots: old(self)@.slabs[slab].slots }),
        ));
    }
}

impl<T> SlabMemory<T> {
    /// Puts a slab at an address, over whatever lies there.
    fn put(&mut self, slab: Slab<T>)
        requires
            old(self).inv(),
            slab.base.ptr != 0,
        ensures
            final(self).inv(),
            final(self)@ == old(self)@.with_slab(slab.base, slab.state()),
    {
        broadcast use vstd::std_specs::hash::group_hash_axioms;

        let ghost before = self@;
        let ghost state = slab.state();
        let base: PSlab = slab.base;
        if self.index.contains_key(&base.ptr) {
            let i: usize = self.locate(base);
            self.slabs[i] = slab;
        } else {
            let i: usize = self.slabs.len();
            self.slabs.push(slab);
            self.index.insert(base.ptr, i);
        }
        assert(self@ =~= before.with_slab(base, state));
    }
}

/// The slots of a slab, as an array in memory.
pub struct Slots;

impl Slots {
    /// Links the slots of a new slab, from the last to the first, and returns them with
    /// the address of the first.
    pub fn init<T>(geo: SlabGeometry, slab: PSlab) -> (r: (Vec<SlotCell<T>>, Option<PSlot>))
        requires
            slab.ptr + geo.header_size + geo.slab_capacity * geo.slot_size <= usize::MAX,
            slab.ptr + geo.header_size > 0,
        ensures
            contents(r.0@) == (Memory { geo, slabs: Map::<PSlab, SlabState<T>>::empty() }).fresh_slots(slab),
            r.1 == (if geo.slab_capacity > 0 {
                Some((Memory { geo, slabs: Map::<PSlab, SlabState<T>>::empty() }).slot_at(slab, 0))
            } else {
                None
            }),
    {
        let capacity: usize = geo.slab_capacity;
        let ghost mem = Memory { geo, slabs: Map::<PSlab, SlabState<T>>::empty() };
        let mut slots: Vec<SlotCell<T>> = Vec::new();
        let mut filled: usize = 0;
        while filled < capacity
            invariant
                filled <= capacity,
                slots@.len() == filled,
            decreases capacity - filled,
        {
            slots.push(SlotCell::Spent);
            filled = filled + 1;
        }
        assert(0 <= capacity * geo.slot_size) by (nonlinear_arith);
        let mut addresses = PtrIterMut::new(slab.ptr + geo.header_size, capacity, geo.slot_size);
        let ghost all = addresses@;
        let mut last: Option<PSlot> = None;
        let mut i: usize = capacity;
        assert(all.take(capacity as int) =~= all);
        while i > 0
            invariant
                i <= capacity,
                capacity == geo.slab_capacity,
                mem.geo == geo,
                slots@.len() == capacity,
                addresses.wf(),
                addresses@ == all.take(i as int),
                all.len() == capacity,
                forall|j: int| 0 <= j < capacity ==> #[trigger] all[j] == mem.slot_at(slab, j).ptr,
                forall|j: int|
                    i <= j < capacity ==> (#[trigger] slots@[j])@ == mem.fresh_slots(slab)[j],
                last == (if i < capacity {
                    Some(mem.slot_at(slab, i as int))
                } else {
                    None
                }),
            decreases i,
        {
            let ghost left = addresses@;
            let ptr: usize = addresses.next_back().unwrap();
            assert(left.drop_last() =~= all.take(i - 1));
            assert(ptr == all[i - 1]);
            i = i - 1;
            last = Some(PSlot::init(&mut slots, i, ptr, last));
        }
        assert(contents(slots@) =~= mem.fresh_slots(slab));
        (slots, last)
    }
}

impl PSlot {
    pub fn new(ptr: usize) -> (r: PSlot)
        ensures
            r.ptr == ptr,
    {
        PSlot { ptr }
    }

    /// Writes the link of a slot of a new slab: slot number `i`, at address `ptr`.
    fn init<T>(
        slots: &mut Vec<SlotCell<T>>,
        i: usize,
        ptr: usize,
        vacant: Option<PSlot>,
    ) -> (r: PSlot)
        requires
            i < old(slots)@.len(),
        ensures
            r.ptr == ptr,
            final(slots)@ == old(slots)@.update(i as int, SlotCell::Vacant { next: vacant }),
    {
        slots[i] = SlotCell::Vacant { next: vacant };
        PSlot { ptr }
    }

    /// The slab that the slot lies in.
    pub fn header(self, mask: SlabMask) -> (r: PSlab)
        requires
            self.ptr & mask.bits != 0,
        ensures
            r.ptr == self.ptr & mask.bits,
    {
        PSlab::new(mask.apply(self.ptr))
    }

    /// Makes the slot a free one, linked to `next`. What it held is forgotten, not dropped.
    pub fn vacate<T>(self, mem: &mut SlabMemory<T>, next: Option<PSlot>)
        requires
            old(mem).inv(),
            old(mem)@.is_slot(self),
        ensures
            final(mem).inv(),
            final(mem)@ == old(mem)@.with_cell(self, Slot::Vacant { next }),
    {
        self.exchange(mem, SlotCell::Vacant { next });
    }

    /// The link of a free slot.
    pub fn vacant<T>(self, mem: &SlabMemory<T>) -> (r: Option<PSlot>)
        requires
            mem.inv(),
            mem@.is_slot(self),
            mem@.cell(self) is Vacant,
        ensures
            mem@.cell(self) == (Slot::<T>::Vacant { next: r }),
    {
        let (i, j): (usize, usize) = mem.place(self);
        match &mem.slabs[i].slots[j] {
            SlotCell::Vacant { next } => *next,
            _ => None,
        }
    }

    /// Puts `cell` into the slot, and takes out what was there.
    fn exchange<T>(self, mem: &mut SlabMemory<T>, cell: SlotCell<T>) -> (r: SlotCell<T>)
        requires
            old(mem).inv(),
            old(mem)@.is_slot(self),
        ensures
            final(mem).inv(),
            final(mem)@ == old(mem)@.with_cell(self, cell@),
            r@ == old(mem)@.cell(self),
    {
        let ghost before = mem@;
        let ghost slabs = mem.slabs@;
        let (i, j): (usize, usize) = mem.place(self);
        let ghost written = cell@;
        let mut cell = cell;
        core::mem::swap(&mut mem.slabs[i].slots[j], &mut cell);
        assert(contents(mem.slabs@[i as int].slots@) =~= contents(
            slabs[i as int].slots@,
        ).update(j as int, written));
        assert(mem@ =~= before.with_cell(self, written));
        cell
    }

    /// Stores an object in the slot. What it held is forgotten, not dropped.
    pub(crate) fn put_object<T>(self, mem: &mut SlabMemory<T>, value: T)
        requires
            old(mem).inv(),
            old(mem)@.is_slot(self),
        ensures
            final(mem).inv(),
            final(mem)@ == old(mem)@.with_cell(self, Slot::Occupied { value }),
    {
        self.exchange(mem, SlotCell::Occupied { value: ManuallyDrop::new(value) });
    }

    /// Takes the object out of the slot.
    pub(crate) fn take_object<T>(self, mem: &mut SlabMemory<T>) -> (r: T)
        requires
            old(mem).inv(),
            old(mem)@.is_slot(self),
            old(mem)@.cell(self) is Occupied,
        ensures
            final(mem).inv(),
            final(mem)@ == old(mem)@.with_cell(self, Slot::Spent),
            r == old(mem)@.cell(self)->value,
    {
        match self.exchange(mem, SlotCell::Spent) {
            SlotCell::Occupied { value } => ManuallyDrop::into_inner(value),
            _ => vstd::pervasive::unreached(),
        }
    }

    /// The object in the slot.
    pub(crate) fn object_ref<T>(self, mem: &SlabMemory<T>) -> (r: &T)
        requires
            mem.inv(),
            mem@.is_slot(self),
            mem@.cell(self) is Occupied,
        ensures
            *r == mem@.cell(self)->value,
    {
        let (i, j): (usize, usize) = mem.place(self);
        match &mem.slabs[i].slots[j] {
            SlotCell::Occupied { value } => value.deref(),
            _ => vstd::pervasive::unreached(),
        }
    }

    /// The object in the slot, to be changed.
    pub(crate) fn object_mut<T>(self, mem: &mut SlabMemory<T>) -> (r: &mut T)
        requires
            old(mem).inv(),
            old(mem)@.is_slot(self),
            old(mem)@.cell(self) is Occupied,
        ensures
            *r == old(mem)@.cell(self)->value,
            final(mem).inv(),
            final(mem)@ == old(mem)@.with_cell(self, Slot::Occupied { value: *final(r) }),
    {
        let (i, j): (usize, usize) = mem.place(self);
        proof {
            let slots = mem.slabs@[i as int].slots@;
            assert forall|cell: SlotCell<T>|
                contents(#[trigger] slots.update(j as int, cell)) == contents(slots).update(
                    j as int,
                    cell@,
                ) by {
                assert(contents(slots.update(j as int, cell)) =~= contents(slots).update(
                    j as int,
                    cell@,
                ));
            }
        }
        match &mut mem.slabs[i].slots[j] {
            SlotCell::Occupied { value } => inside(value),
            _ => vstd::pervasive::unreached(),
        }
    }

    /// The address of the object in the slot.
    pub fn object(self) -> (r: usize)
        ensures
            r == self.ptr,
    {
        self.ptr
    }

    pub fn ptr(self) -> (r: usize)
        ensures
            r == self.ptr,
    {
        self.ptr
    }
}

impl PSlab {
    pub fn new(ptr: usize) -> (r: PSlab)
        ensures
            r.ptr == ptr,
    {
        PSlab { ptr }
    }

    /// Writes a new slab to memory: all of its slots free, in order, and `next` behind it.
    pub fn init<T>(mem: &mut SlabMemory<T>, ptr: usize, next: Option<PSlab>) -> (r: PSlab)
        requires
            old(mem).inv(),
            old(mem).geo.slab_capacity > 0,
            ptr + old(mem).geo.header_size + old(mem).geo.slab_capacity * old(mem).geo.slot_size
                <= usize::MAX,
            ptr != 0,
        ensures
            final(mem).inv(),
            r.ptr == ptr,
            final(mem)@ == old(mem)@.with_slab(
                r,
                (SlabState {
                    next,
                    free: Some(old(mem)@.slot_at(r, 0)),
                    slots: old(mem)@.fresh_slots(r),
                }),
            ),
    {
        let slab = PSlab { ptr };
        let (slots, last) = Slots::init(mem.geo, slab);
        assert(contents(slots@) =~= mem@.fresh_slots(slab));
        mem.put(Slab { base: slab, header: SlabHeader { next, free: last }, slots });
        slab
    }

    pub fn is_same(self, other: PSlab) -> (r: bool)
        ensures
            r == (self == other),
    {
        self.ptr == other.ptr
    }

    pub fn next<T>(self, mem: &SlabMemory<T>) -> (r: Option<PSlab>)
        requires
            mem.inv(),
            mem@.slabs.contains_key(self),
        ensures
            r == mem@.slabs[self].next,
    {
        mem.slabs[mem.locate(self)].header.next
    }

    pub fn take_next<T>(self, mem: &mut SlabMemory<T>) -> (r: Option<PSlab>)
        requires
            old(mem).inv(),
            old(mem)@.slabs.contains_key(self),
        ensures
            final(mem).inv(),
            final(mem)@ == old(mem)@.with_next(self, None),
            r == old(mem)@.slabs[self].next,
    {
        let next = self.next(mem);
        self.set_next(mem, None);
        next
    }

    pub fn set_next<T>(self, mem: &mut SlabMemory<T>, next: Option<PSlab>)
        requires
            old(mem).inv(),
            old(mem)@.slabs.contains_key(self),
        ensures
            final(mem).inv(),
            final(mem)@ == old(mem)@.with_next(self, next),
    {
        let free = self.free(mem);
        mem.set_header(self, SlabHeader { next, free });
    }

    pub fn free<T>(self, mem: &SlabMemory<T>) -> (r: Option<PSlot>)
        requires
            mem.inv(),
            mem@.slabs.contains_key(self),
        ensures
            r == mem@.slabs[self].free,
    {
        mem.slabs[mem.locate(self)].header.free
    }

    pub fn set_free<T>(self, mem: &mut SlabMemory<T>, free: Option<PSlot>)
        requires
            old(mem).inv(),
            old(mem)@.slabs.contains_key(self),
        ensures
            final(mem).inv(),
            final(mem)@ == old(mem)@.with_free(self, free),
    {
        let next = self.next(mem);
        mem.set_header(self, SlabHeader { next, free });
    }

    pub fn ptr(self) -> (r: usize)
        ensures
            r == self.ptr,
    {
        self.ptr
    }
}

} // verus!
