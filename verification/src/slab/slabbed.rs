//! Objects in slots.

use std::cmp::Ordering;
use std::marker::PhantomData;

use vstd::prelude::*;
use vstd::std_specs::cmp::{OrdSpec, PartialEqSpec, PartialOrdSpec};

use crate::slab::laws::{free_effect, law_free_slots_hold_no_object, law_write};
use crate::slab::model::{Heap, PSlot, Slot};
use crate::slab::SlabAllocator;

verus! {

/// An object in a slot. The allocator that the slot comes from is passed to whatever looks
/// at the object.
#[must_use]
pub struct Slabbed<T> {
    ptr: usize,
    _object: PhantomData<T>,
}

impl<T> Heap<T> {
    /// Whether an object is stored at `ptr`.
    pub open spec fn holds_object(self, ptr: usize) -> bool {
        &&& self.mem.is_slot(PSlot { ptr })
        &&& self.mem.cell(PSlot { ptr }) is Occupied
    }

    /// The object stored at `ptr`.
    pub open spec fn object(self, ptr: usize) -> T {
        self.mem.cell(PSlot { ptr })->value
    }

    /// The heap after the object at `ptr` was dropped and its slot given back.
    pub open spec fn drop_object(self, ptr: usize) -> Heap<T> {
        let slot = PSlot { ptr };
        (Heap { mem: self.mem.with_cell(slot, Slot::Spent), ..self }).free_unchecked(slot)
    }

    /// The heap with an object stored at `ptr`.
    pub open spec fn with_object(self, ptr: usize, value: T) -> Heap<T> {
        Heap { mem: self.mem.with_cell(PSlot { ptr }, Slot::Occupied { value }), ..self }
    }
}

impl<T> Slabbed<T> {
    /// The address of the object.
    pub closed spec fn addr(self) -> usize {
        self.ptr
    }

    /// No object lies at address zero.
    #[verifier::type_invariant]
    spec fn non_null(self) -> bool {
        self.ptr != 0
    }

    /// A handle to the object at `ptr`.
    pub fn from_non_null(ptr: usize) -> (r: Slabbed<T>)
        requires
            ptr != 0,
        ensures
            r.addr() == ptr,
    {
        Slabbed { ptr, _object: PhantomData }
    }

    /// A handle to the object at `ptr`, unless that is null.
    pub fn from_raw(ptr: usize) -> (r: Option<Slabbed<T>>)
        ensures
            r is None <==> ptr == 0,
            r matches Some(object) ==> object.addr() == ptr,
    {
        if ptr == 0 {
            None
        } else {
            Some(Self::from_non_null(ptr))
        }
    }

    /// Gives up the handle. The object stays where it is.
    pub fn into_non_null(this: Self) -> (r: usize)
        ensures
            r == this.addr(),
            r != 0,
    {
        proof {
            use_type_invariant(&this);
        }
        this.ptr
    }

    /// Gives up the handle. The object stays where it is.
    pub fn into_raw(this: Self) -> (r: usize)
        ensures
            r == this.addr(),
            r != 0,
    {
        Self::into_non_null(this)
    }

    pub fn as_ptr(this: &Self) -> (r: usize)
        ensures
            r == this.addr(),
            r != 0,
    {
        proof {
            use_type_invariant(this);
        }
        this.ptr
    }

    pub fn as_mut_ptr(this: &mut Self) -> (r: usize)
        ensures
            r == old(this).addr(),
            r != 0,
            *final(this) == *old(this),
    {
        proof {
            use_type_invariant(&*this);
        }
        this.ptr
    }

    pub fn as_non_null(this: &Self) -> (r: usize)
        ensures
            r == this.addr(),
            r != 0,
    {
        proof {
            use_type_invariant(this);
        }
        this.ptr
    }

    /// The object.
    pub fn inner<'a>(this: &Self, alloc: &'a SlabAllocator<T>) -> (r: &'a T)
        requires
            alloc.valid(),
            alloc@.holds_object(this.addr()),
        ensures
            *r == alloc@.object(this.addr()),
    {
        alloc.object_ref(PSlot::new(this.ptr))
    }

    /// The object, to be changed.
    pub fn inner_mut<'a>(this: &mut Self, alloc: &'a mut SlabAllocator<T>) -> (r: &'a mut T)
        requires
            old(alloc).valid(),
            old(alloc)@.holds_object(old(this).addr()),
        ensures
            *final(this) == *old(this),
            *r == old(alloc)@.object(old(this).addr()),
            final(alloc).valid(),
            final(alloc)@ == old(alloc)@.with_object(old(this).addr(), *final(r)),
            old(alloc)@.wf() ==> final(alloc)@.wf(),
    {
        proof {
            lemma_objects_keep_wf(alloc@, this.ptr);
        }
        alloc.object_mut(PSlot::new(this.ptr))
    }

    /// Gives up the handle for good. The object stays where it is, to be changed.
    pub fn leak<'a>(this: Self, alloc: &'a mut SlabAllocator<T>) -> (r: &'a mut T)
        requires
            old(alloc).valid(),
            old(alloc)@.holds_object(this.addr()),
        ensures
            *r == old(alloc)@.object(this.addr()),
            final(alloc).valid(),
            final(alloc)@ == old(alloc)@.with_object(this.addr(), *final(r)),
            old(alloc)@.wf() ==> final(alloc)@.wf(),
    {
        proof {
            lemma_objects_keep_wf(alloc@, this.ptr);
        }
        alloc.object_mut(PSlot::new(Self::into_non_null(this)))
    }

    /// Drops the object and gives back its slot.
    pub fn drop(this: Self, alloc: &mut SlabAllocator<T>)
        requires
            old(alloc).valid(),
            old(alloc)@.holds_object(this.addr()),
            old(alloc)@.wf() || old(alloc)@.head_mapped(),
        ensures
            final(alloc).valid(),
            final(alloc)@ == old(alloc)@.drop_object(this.addr()),
            old(alloc)@.free is None ==> final(alloc)@.free == Some(PSlot { ptr: this.addr() }),
            final(alloc)@.free is Some,
            old(alloc)@.wf() && old(alloc)@.free is Some ==> {
                &&& final(alloc)@.wf()
                &&& free_effect(old(alloc)@, final(alloc)@, PSlot { ptr: this.addr() })
            },
    {
        let slot: PSlot = PSlot::new(this.ptr);
        let ghost before = alloc@;
        {
            let _object: T = alloc.take_object(slot);
        }
        proof {
            if before.wf() {
                lemma_object_in_use(before, slot.ptr);
                law_write(before, slot, Slot::Spent);
            }
        }
        alloc.free_unchecked(this.ptr);
    }

    /// Compares two objects, each in a slot of its allocator.
    pub fn eq(
        this: &Self,
        alloc: &SlabAllocator<T>,
        other: &Self,
        other_alloc: &SlabAllocator<T>,
    ) -> (r: bool) where T: PartialEq
        requires
            alloc.valid(),
            alloc@.holds_object(this.addr()),
            other_alloc.valid(),
            other_alloc@.holds_object(other.addr()),
        ensures
            call_ensures(
                T::eq,
                (&alloc@.object(this.addr()), &other_alloc@.object(other.addr())),
                r,
            ),
            T::obeys_eq_spec() ==> r == alloc@.object(this.addr()).eq_spec(
                &other_alloc@.object(other.addr()),
            ),
    {
        Self::inner(this, alloc).eq(Self::inner(other, other_alloc))
    }

    /// Orders two objects, each in a slot of its allocator, if they can be ordered.
    pub fn partial_cmp(
        this: &Self,
        alloc: &SlabAllocator<T>,
        other: &Self,
        other_alloc: &SlabAllocator<T>,
    ) -> (r: Option<Ordering>) where T: PartialOrd
        requires
            alloc.valid(),
            alloc@.holds_object(this.addr()),
            other_alloc.valid(),
            other_alloc@.holds_object(other.addr()),
        ensures
            call_ensures(
                T::partial_cmp,
                (&alloc@.object(this.addr()), &other_alloc@.object(other.addr())),
                r,
            ),
            T::obeys_partial_cmp_spec() ==> r == alloc@.object(this.addr()).partial_cmp_spec(
                &other_alloc@.object(other.addr()),
            ),
    {
        Self::inner(this, alloc).partial_cmp(Self::inner(other, other_alloc))
    }

    /// Orders two objects, each in a slot of its allocator.
    pub fn cmp(
        this: &Self,
        alloc: &SlabAllocator<T>,
        other: &Self,
        other_alloc: &SlabAllocator<T>,
    ) -> (r: Ordering) where T: Ord
        requires
            alloc.valid(),
            alloc@.holds_object(this.addr()),
            other_alloc.valid(),
            other_alloc@.holds_object(other.addr()),
        ensures
            call_ensures(
                T::cmp,
                (&alloc@.object(this.addr()), &other_alloc@.object(other.addr())),
                r,
            ),
            T::obeys_cmp_spec() ==> r == alloc@.object(this.addr()).cmp_spec(
                &other_alloc@.object(other.addr()),
            ),
    {
        Self::inner(this, alloc).cmp(Self::inner(other, other_alloc))
    }
}

/// A slot with an object in it is not free.
pub proof fn lemma_object_in_use<T>(h: Heap<T>, ptr: usize)
    requires
        h.wf(),
        h.holds_object(ptr),
    ensures
        !h.available(PSlot { ptr }),
{
    if h.available(PSlot { ptr }) {
        law_free_slots_hold_no_object(h, PSlot { ptr });
    }
}

/// Changing an object leaves a well-formed heap.
proof fn lemma_objects_keep_wf<T>(h: Heap<T>, ptr: usize)
    requires
        h.holds_object(ptr),
    ensures
        forall|value: T| h.wf() ==> (#[trigger] h.with_object(ptr, value)).wf(),
{
    assert forall|value: T| h.wf() implies (#[trigger] h.with_object(ptr, value)).wf() by {
        lemma_object_in_use(h, ptr);
        law_write(h, PSlot { ptr }, Slot::Occupied { value });
    }
}

} // verus!
