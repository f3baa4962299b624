//! Walking over an array by the addresses of its items.

use vstd::prelude::*;

verus! {

/// The addresses of the items of an array, taken from either end. Items are `stride`
/// bytes apart.
pub struct PtrIterMut {
    pub first: usize,
    pub len: usize,
    pub stride: usize,
}

impl PtrIterMut {
    /// Whether an array of `len` items at `first` stays inside the address space.
    pub open spec fn fits(first: usize, len: usize, stride: usize) -> bool {
        first + len * stride <= usize::MAX
    }

    pub open spec fn wf(self) -> bool {
        &&& self.first != 0
        &&& Self::fits(self.first, self.len, self.stride)
    }

    /// The addresses that are left, in order.
    pub open spec fn view(self) -> Seq<usize> {
        Seq::new(self.len as nat, |i: int| (self.first + i * self.stride) as usize)
    }

    pub fn new(first: usize, len: usize, stride: usize) -> (r: PtrIterMut)
        requires
            first != 0,
            Self::fits(first, len, stride),
        ensures
            r.wf(),
            r == (PtrIterMut { first, len, stride }),
    {
        PtrIterMut { first, len, stride }
    }

    /// As `new`, for an address that may be null.
    pub fn new_ptr(first: usize, len: usize, stride: usize) -> (r: Option<PtrIterMut>)
        requires
            Self::fits(first, len, stride),
        ensures
            r == (if first == 0 {
                None
            } else {
                Some(PtrIterMut { first, len, stride })
            }),
    {
        if first == 0 {
            None
        } else {
            Some(Self::new(first, len, stride))
        }
    }

    fn ptr_first(&self) -> (r: Option<usize>)
        requires
            self.wf(),
        ensures
            r == (if self@.len() == 0 {
                None
            } else {
                Some(self@.first())
            }),
            self.len > 0 ==> r == Some(self.first),
    {
        if self.len == 0 {
            return None;
        }
        assert(self.first == self@.first()) by {
            assert(0 * self.stride == 0) by (nonlinear_arith);
        }
        Some(self.first)
    }

    fn move_front(&mut self)
        requires
            old(self).wf(),
            old(self)@.len() > 0,
        ensures
            final(self).wf(),
            final(self)@ == old(self)@.drop_first(),
            final(self).stride == old(self).stride,
            final(self).len == old(self).len - 1,
    {
        let ghost before = *self;
        assert(self.stride <= self.len * self.stride) by (nonlinear_arith)
            requires
                self.len > 0,
        ;
        assert((self.len - 1) * self.stride + self.stride == self.len * self.stride)
            by (nonlinear_arith);
        self.first = self.first + self.stride;
        self.len = self.len - 1;
        assert forall|i: int| 0 <= i < self.len implies self@[i] == before@.drop_first()[i] by {
            assert((i + 1) * before.stride == i * before.stride + before.stride)
                by (nonlinear_arith);
        }
    }

    fn ptr_last(&self) -> (r: Option<usize>)
        requires
            self.wf(),
        ensures
            r == (if self@.len() == 0 {
                None
            } else {
                Some(self@.last())
            }),
    {
        if self.len == 0 {
            return None;
        }
        assert((self.len - 1) * self.stride <= self.len * self.stride) by (nonlinear_arith)
            requires
                self.len > 0,
        ;
        Some(self.first + (self.len - 1) * self.stride)
    }

    fn move_back(&mut self)
        requires
            old(self).wf(),
            old(self)@.len() > 0,
        ensures
            final(self).wf(),
            final(self)@ == old(self)@.drop_last(),
            final(self).stride == old(self).stride,
            final(self).len == old(self).len - 1,
            final(self).first == old(self).first,
    {
        let ghost before = *self;
        assert((self.len - 1) * self.stride <= self.len * self.stride) by (nonlinear_arith)
            requires
                self.len > 0,
        ;
        self.len = self.len - 1;
        assert(self@ =~= before@.drop_last());
    }

    /// Takes the first address that is left.
    pub fn next(&mut self) -> (r: Option<usize>)
        requires
            old(self).wf(),
        ensures
            final(self).wf(),
            final(self).stride == old(self).stride,
            old(self)@.len() == 0 ==> r is None && final(self)@ == old(self)@,
            old(self).len == 0 ==> r is None && final(self).len == 0,
            old(self).len > 0 ==> r == Some(old(self).first) && final(self).len == old(self).len - 1,
            old(self)@.len() > 0 ==> r == Some(old(self)@.first()) && final(self)@ == old(
                self,
            )@.drop_first(),
    {
        match self.ptr_first() {
            None => None,
            Some(ptr) => {
                self.move_front();
                Some(ptr)
            },
        }
    }

    /// Takes the last address that is left.
    pub fn next_back(&mut self) -> (r: Option<usize>)
        requires
            old(self).wf(),
        ensures
            final(self).wf(),
            final(self).stride == old(self).stride,
            old(self)@.len() == 0 ==> r is None && final(self)@ == old(self)@,
            old(self).len == 0 ==> r is None && final(self).len == 0,
            old(self).len > 0 ==> final(self).first == old(self).first && final(self).len == old(
                self,
            ).len - 1,
            old(self)@.len() > 0 ==> r == Some(old(self)@.last()) && final(self)@ == old(
                self,
            )@.drop_last(),
    {
        match self.ptr_last() {
            None => None,
            Some(ptr) => {
                self.move_back();
                Some(ptr)
            },
        }
    }

    pub fn size_hint(&self) -> (r: (usize, Option<usize>))
        ensures
            r.0 == self@.len(),
            r.0 == self.len,
            r.1 == Some(r.0),
    {
        (self.len, Some(self.len))
    }

    pub fn len(&self) -> (r: usize)
        ensures
            r == self@.len(),
            r == self.len,
    {
        self.len
    }
}

/// The addresses of an array start with that of its first item, and go up in equal steps.
pub proof fn law_addresses(array: PtrIterMut, i: int)
    requires
        array.wf(),
        0 <= i < array.len,
    ensures
        array@.len() == array.len,
        array@[i] == array.first + i * array.stride,
        array.first != 0,
        array@[0] == array.first,
        i + 1 < array.len ==> array@[i + 1] == array@[i] + array.stride,
{
    let stride = array.stride as int;
    let len = array.len as int;
    assert(0 <= i * stride && i * stride + stride <= len * stride) by (nonlinear_arith)
        requires
            0 <= i < len,
            0 <= stride,
    ;
    assert((i + 1) * stride == i * stride + stride) by (nonlinear_arith);
    assert(0 * stride == 0) by (nonlinear_arith);
    if i + 1 < len {
        assert((i + 1) * stride + stride <= len * stride) by (nonlinear_arith)
            requires
                i + 1 < len,
                0 <= stride,
        ;
    }
}

} // verus!
