//! Sizes: how large a slot and a slab header are for a given object type, and
//! how a slab is divided between them.

use vstd::layout::{align_of, layout_for_type_is_valid, size_of};
use vstd::prelude::*;

use crate::slab::mask::{lemma_round_up, round_up, SlabMask};
use crate::slab::model::{PSlab, PSlot};
use crate::slab::{SlabAllocatorOptions, SlabError};

verus! {

/// The size and the alignment of a block of memory, in bytes.
#[derive(Debug, Clone, Copy, PartialEq, Eq, Structural)]
pub struct Layout {
    pub size: usize,
    pub align: usize,
}

pub open spec fn max(a: int, b: int) -> int {
    if a < b {
        b
    } else {
        a
    }
}

/// The alignment of a slot: it holds either an object or the address of another slot.
pub open spec fn slot_align<T>() -> int {
    max(align_of::<usize>() as int, align_of::<T>() as int)
}

/// The size of a slot: enough for an object and for an address, padded to its alignment.
pub open spec fn slot_size<T>() -> int {
    round_up(max(size_of::<usize>() as int, size_of::<T>() as int), slot_align::<T>())
}

/// The size of a slab header: two addresses, padded so that slots can follow it.
pub open spec fn header_size<T>() -> int {
    round_up(2 * size_of::<usize>() as int, slot_align::<T>())
}

/// `n` rounded up to a multiple of `a`.
fn pad_to(n: usize, a: usize) -> (r: usize)
    requires
        a > 0,
        round_up(n as int, a as int) <= usize::MAX,
    ensures
        r == round_up(n as int, a as int),
{
    proof {
        lemma_round_up(n as int, a as int);
    }
    let over: usize = n % a;
    if over == 0 {
        n
    } else {
        proof {
            vstd::arithmetic::div_mod::lemma_fundamental_div_mod(n as int, a as int);
            let q = n as int / a as int;
            let m = n + a - 1;
            assert(m == a * (q + 1) + (over - 1)) by (nonlinear_arith)
                requires
                    n == a * q + over,
                    m == n + a - 1,
            ;
            vstd::arithmetic::div_mod::lemma_fundamental_div_mod_converse(m, a as int, q + 1, over - 1);
        }
        n + (a - over)
    }
}

impl PSlot {
    /// The layout of a slot for objects of type `T`.
    pub fn layout<T>() -> (r: Layout)
        ensures
            r.size == slot_size::<T>(),
            r.align == slot_align::<T>(),
            r.size > 0,
            r.align > 0,
    {
        layout_for_type_is_valid::<T>();
        layout_for_type_is_valid::<usize>();
        let word: usize = core::mem::size_of::<usize>();
        let size: usize = core::mem::size_of::<T>();
        let word_align: usize = core::mem::align_of::<usize>();
        let size_align: usize = core::mem::align_of::<T>();
        let align: usize = if word_align < size_align { size_align } else { word_align };
        let payload: usize = if word < size { size } else { word };
        proof {
            broadcast use vstd::layout::group_layout_axioms;
            lemma_round_up(payload as int, align as int);
        }
        Layout { size: pad_to(payload, align), align }
    }

    /// The size of a slot for objects of type `T`.
    pub fn size<T>() -> (r: usize)
        ensures
            r == slot_size::<T>(),
            r > 0,
    {
        Self::layout::<T>().size
    }
}

impl PSlab {
    /// The layout of a slab header ahead of slots for objects of type `T`; none if the
    /// alignment of `T` makes it larger than any block of memory.
    pub fn header_layout<T>() -> (r: Result<Layout, SlabError>)
        ensures
            r is Ok <==> header_size::<T>() <= isize::MAX,
            r is Ok ==> r->Ok_0.size == header_size::<T>() && r->Ok_0.align == slot_align::<T>(),
    {
        broadcast use vstd::layout::group_layout_axioms;

        let align: usize = PSlot::layout::<T>().align;
        let fields: usize = 2 * core::mem::size_of::<usize>();
        proof {
            lemma_round_up(fields as int, align as int);
        }
        let limit: usize = isize::MAX as usize;
        if align > limit {
            return Err(SlabError);
        }
        let size: usize = pad_to(fields, align);
        if size > limit {
            return Err(SlabError);
        }
        Ok(Layout { size, align })
    }
}

/// How slabs are laid out in memory. A slab of `slab_len` bytes starts with a header
/// of `header_size` bytes; `slab_capacity` slots of `slot_size` bytes follow it.
#[derive(Clone, Copy, PartialEq, Eq, Structural)]
pub struct SlabGeometry {
    pub slab_capacity: usize,
    pub slab_len: usize,
    pub slab_mask: SlabMask,
    /// The length of one mapping: twice that of a slab, so that an aligned slab fits
    /// into it wherever it starts.
    pub slab_alloc: usize,
    pub header_size: usize,
    pub slot_size: usize,
}

/// The geometry for slabs of `pages` pages, if there is one: slabs take an even number
/// of pages, have room for at least one slot, and two of them fit into memory.
pub open spec fn geometry_of(pages: int, page_size: int, header: int, slot: int) -> Option<
    SlabGeometry,
> {
    let len = page_size * pages;
    if pages % 2 == 0 && 0 < len && 2 * len <= usize::MAX && header <= len && (len - header) / slot
        > 0 {
        Some(
            SlabGeometry {
                slab_capacity: ((len - header) / slot) as usize,
                slab_len: len as usize,
                slab_mask: SlabMask { bits: !((len - 1) as usize) },
                slab_alloc: (2 * len) as usize,
                header_size: header as usize,
                slot_size: slot as usize,
            },
        )
    } else {
        None
    }
}

/// The geometry that `options` ask for, with slots for objects of type `T`.
pub open spec fn geometry_for<T>(options: SlabAllocatorOptions, page_size: usize) -> Option<
    SlabGeometry,
> {
    if header_size::<T>() <= isize::MAX {
        geometry_of(
            options.pages_per_slab as int,
            page_size as int,
            header_size::<T>(),
            slot_size::<T>(),
        )
    } else {
        None
    }
}

impl SlabGeometry {
    /// The numbers belong together: header and slots fit into a slab, two slabs into memory.
    pub open spec fn wf(self) -> bool {
        &&& 0 < self.slab_capacity
        &&& 0 < self.slot_size
        &&& 0 < self.header_size
        &&& self.header_size + self.slab_capacity * self.slot_size <= self.slab_len
        &&& self.slab_alloc == 2 * self.slab_len
        &&& self.slab_mask.bits == !((self.slab_len - 1) as usize)
    }

    /// Divides slabs of the asked-for size between header and slots.
    pub fn new<T>(options: SlabAllocatorOptions, page_size: usize) -> (r: Result<
        SlabGeometry,
        SlabError,
    >)
        ensures
            r == (match geometry_for::<T>(options, page_size) {
                Some(g) => Ok::<SlabGeometry, SlabError>(g),
                None => Err(SlabError),
            }),
            r is Ok ==> r->Ok_0.wf(),
            ({
                let len = page_size * options.pages_per_slab;
                r is Ok <==> options.pages_per_slab % 2 == 0 && 0 < len && 2 * len <= usize::MAX
                    && header_size::<T>() <= isize::MAX && header_size::<T>() + slot_size::<T>()
                    <= len
            }),
            r matches Ok(geo) ==> {
                let len = page_size * options.pages_per_slab;
                &&& geo.slab_len == len
                &&& geo.slab_alloc == 2 * len
                &&& geo.slab_mask.bits == !((len - 1) as usize)
                &&& geo.header_size == header_size::<T>()
                &&& geo.slot_size == slot_size::<T>()
                &&& geo.header_size + geo.slab_capacity * geo.slot_size <= len
                &&& len < geo.header_size + (geo.slab_capacity + 1) * geo.slot_size
            },
    {
        proof {
            law_geometry::<T>(options, page_size);
        }
        if !options.pages_per_slab.is_multiple_of(2) {
            return Err(SlabError);
        }
        let slab_len: usize = match page_size.checked_mul(options.pages_per_slab) {
            Some(len) => if len == 0 {
                return Err(SlabError);
            } else {
                len
            },
            None => return Err(SlabError),
        };
        let header: Layout = match PSlab::header_layout::<T>() {
            Ok(header) => header,
            Err(error) => return Err(error),
        };
        let slot_size: usize = PSlot::size::<T>();
        let slab_capacity: usize = match slab_len.checked_sub(header.size) {
            Some(room) => if room / slot_size == 0 {
                return Err(SlabError);
            } else {
                room / slot_size
            },
            None => return Err(SlabError),
        };
        let slab_mask = SlabMask { bits: !(slab_len - 1) };
        let slab_alloc: usize = match slab_len.checked_mul(2) {
            Some(len) => len,
            None => return Err(SlabError),
        };
        proof {
            broadcast use vstd::layout::group_layout_axioms;

            lemma_round_up(2 * size_of::<usize>() as int, slot_align::<T>());
            let room = slab_len - header.size;
            vstd::arithmetic::div_mod::lemma_fundamental_div_mod(room, slot_size as int);
            assert(slot_size * slab_capacity == slab_capacity * slot_size) by (nonlinear_arith);
        }
        Ok(
            SlabGeometry {
                slab_capacity,
                slab_len,
                slab_mask,
                slab_alloc,
                header_size: header.size,
                slot_size,
            },
        )
    }
}

/// A slot has room for an object and for an address, at an alignment that suits both, and is
/// not padded further than that takes. So is the header, with its two addresses.
pub proof fn law_sizes<T>()
    ensures
        ({
            let word = size_of::<usize>() as int;
            let object = size_of::<T>() as int;
            let align = slot_align::<T>();
            &&& align >= align_of::<usize>()
            &&& align >= align_of::<T>()
            &&& align == align_of::<usize>() || align == align_of::<T>()
            &&& slot_size::<T>() >= word
            &&& slot_size::<T>() >= object
            &&& slot_size::<T>() - align < word || slot_size::<T>() - align < object
            &&& slot_size::<T>() % align == 0
            &&& header_size::<T>() >= 2 * word
            &&& header_size::<T>() - align < 2 * word
            &&& header_size::<T>() % align == 0
        }),
{
    broadcast use vstd::layout::group_layout_axioms;

    assert(slot_align::<T>() > 0) by {
        assert(align_of::<usize>() > 0);
    }
    lemma_round_up(
        max(size_of::<usize>() as int, size_of::<T>() as int),
        slot_align::<T>(),
    );
    lemma_round_up(2 * size_of::<usize>() as int, slot_align::<T>());
}

/// There is a geometry for every even number of pages that leaves room for a slot and fits
/// into memory twice, and for no other. A slab is as long as its pages, a mapping twice that,
/// and a slab has as many slots as fit behind its header: not one more would.
pub proof fn law_geometry<T>(options: SlabAllocatorOptions, page_size: usize)
    ensures
        ({
            let len = page_size * options.pages_per_slab;
            let header = header_size::<T>();
            let slot = slot_size::<T>();
            let fits = options.pages_per_slab % 2 == 0 && 0 < len && 2 * len <= usize::MAX
                && header <= isize::MAX && header + slot <= len;
            &&& geometry_for::<T>(options, page_size) is Some <==> fits
            &&& geometry_for::<T>(options, page_size) matches Some(geo) ==> {
                &&& geo.slab_len == len
                &&& geo.slab_alloc == 2 * len
                &&& geo.slab_mask.bits == !((len - 1) as usize)
                &&& geo.header_size == header
                &&& geo.slot_size == slot
                &&& 0 < geo.slab_capacity
                &&& header + geo.slab_capacity * slot <= len
                &&& len < header + (geo.slab_capacity + 1) * slot
            }
        }),
{
    broadcast use vstd::layout::group_layout_axioms;

    law_sizes::<T>();
    let len = page_size * options.pages_per_slab;
    let header = header_size::<T>();
    let slot = slot_size::<T>();
    assert(0 <= len) by (nonlinear_arith)
        requires
            len == page_size * options.pages_per_slab,
    ;
    assert(slot > 0);
    let room = len - header;
    let capacity = room / slot;
    vstd::arithmetic::div_mod::lemma_fundamental_div_mod(room, slot);
    assert(slot * capacity == capacity * slot) by (nonlinear_arith);
    assert((capacity + 1) * slot == capacity * slot + slot) by (nonlinear_arith);
    if header <= len {
        vstd::arithmetic::div_mod::lemma_div_pos_is_pos(room, slot);
        if capacity == 0 {
            assert(slot * 0 == 0) by (nonlinear_arith);
        } else {
            assert(capacity * slot >= slot) by (nonlinear_arith)
                requires
                    capacity >= 1,
                    slot > 0,
            ;
            assert(capacity <= capacity * slot) by (nonlinear_arith)
                requires
                    capacity >= 0,
                    slot >= 1,
            ;
        }
    }
}

} // verus!
