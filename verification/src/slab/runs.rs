//! What holds of an allocator from its beginning to its end.

use vstd::prelude::*;

use crate::slab::laws::{
    all_listed, law_alloc, law_alloc_keeps_slabs, law_release, law_write,
};
use crate::slab::lists::at;
use crate::slab::model::{Heap, PSlab, PSlot, Region, SlabState, Slot, Trim};
use crate::slab::places::{law_mapping_divided, lemma_multiples_apart};
use crate::slab::slab_regions;

verus! {

/// A request for a slot: the memory that was mapped on account of it, if any, and the object
/// that is stored in the slot, if any.
pub struct Request<T> {
    pub mapping: Option<usize>,
    pub stored: Option<T>,
}

impl<T> Heap<T> {
    /// Whether a request is made as it should be: memory is mapped only where an allocation
    /// needs it, and it is memory that the allocator can use.
    pub open spec fn serves(self, request: Request<T>) -> bool {
        &&& self.usable(request.mapping)
        &&& request.mapping is Some ==> self.free is None && self.reusable() is None
    }

    /// The heap after a request.
    pub open spec fn after_request(self, request: Request<T>) -> Heap<T> {
        let (heap, result) = self.try_alloc(request.mapping);
        match (result, request.stored) {
            (Ok(allocation), Some(value)) => heap.with_object(allocation.ptr, value),
            _ => heap,
        }
    }

    /// Whether all of a run of requests are made as they should be.
    pub open spec fn serves_run(self, requests: Seq<Request<T>>) -> bool
        decreases requests.len(),
    {
        requests.len() == 0 || {
            &&& self.serves_run(requests.drop_last())
            &&& self.after_run(requests.drop_last()).serves(requests.last())
        }
    }

    /// The heap after a run of requests.
    pub open spec fn after_run(self, requests: Seq<Request<T>>) -> Heap<T>
        decreases requests.len(),
    {
        if requests.len() == 0 {
            self
        } else {
            self.after_run(requests.drop_last()).after_request(requests.last())
        }
    }

    /// The memory that was mapped on account of a request.
    pub open spec fn mapped_for(self, request: Request<T>) -> Seq<Region> {
        match request.mapping {
            Some(mapping) => seq![Region { addr: mapping, len: self.mem.geo.slab_alloc }],
            None => Seq::empty(),
        }
    }

    /// The memory that is to be unmapped right after a request.
    pub open spec fn trimmed_by(self, request: Request<T>) -> Seq<Region> {
        match self.try_alloc(request.mapping).1 {
            Ok(allocation) => trim_regions(allocation.trim),
            Err(_) => Seq::empty(),
        }
    }

    /// All memory that was mapped on account of a run of requests.
    pub open spec fn mapped_in(self, requests: Seq<Request<T>>) -> Seq<Region>
        decreases requests.len(),
    {
        if requests.len() == 0 {
            Seq::empty()
        } else {
            let before = requests.drop_last();
            self.mapped_in(before) + self.after_run(before).mapped_for(requests.last())
        }
    }

    /// All memory that was to be unmapped in a run of requests.
    pub open spec fn trimmed_in(self, requests: Seq<Request<T>>) -> Seq<Region>
        decreases requests.len(),
    {
        if requests.len() == 0 {
            Seq::empty()
        } else {
            let before = requests.drop_last();
            self.trimmed_in(before) + self.after_run(before).trimmed_by(requests.last())
        }
    }
}

/// The parts of a mapping that no slab takes up.
pub open spec fn trim_regions(trim: Trim) -> Seq<Region> {
    let head = match trim.head {
        Some(head) => seq![head],
        None => Seq::empty(),
    };
    let tail = match trim.tail {
        Some(tail) => seq![tail],
        None => Seq::empty(),
    };
    head + tail
}

/// Whether a byte lies in a region.
pub open spec fn lies_in(byte: usize, region: Region) -> bool {
    region.addr <= byte < region.addr + region.len
}

/// In how many regions a byte lies.
pub open spec fn times_in(byte: usize, regions: Seq<Region>) -> nat
    decreases regions.len(),
{
    if regions.len() == 0 {
        0
    } else {
        times_in(byte, regions.drop_last()) + if lies_in(byte, regions.last()) {
            1nat
        } else {
            0nat
        }
    }
}

proof fn lemma_times_in_both(byte: usize, a: Seq<Region>, b: Seq<Region>)
    ensures
        times_in(byte, a + b) == times_in(byte, a) + times_in(byte, b),
    decreases b.len(),
{
    if b.len() == 0 {
        assert(a + b =~= a);
    } else {
        assert((a + b).drop_last() =~= a + b.drop_last());
        lemma_times_in_both(byte, a, b.drop_last());
    }
}

proof fn lemma_times_in_one(byte: usize, region: Region)
    ensures
        times_in(byte, seq![region]) == if lies_in(byte, region) {
            1nat
        } else {
            0nat
        },
{
    assert(seq![region].drop_last() =~= Seq::<Region>::empty());
    assert(times_in(byte, Seq::<Region>::empty()) == 0);
}

/// Whether a byte lies in a slab.
spec fn in_slab<T>(h: Heap<T>, byte: usize, slab: PSlab) -> bool {
    lies_in(byte, Region { addr: slab.ptr, len: h.mem.geo.slab_len })
}

/// Whether a byte lies in a mapped slab.
spec fn in_slabs<T>(h: Heap<T>, byte: usize) -> bool {
    exists|slab: PSlab| #[trigger] h.mem.slabs.contains_key(slab) && in_slab(h, byte, slab)
}

/// A byte lies in one mapped slab at most.
proof fn lemma_one_slab<T>(h: Heap<T>, byte: usize, a: PSlab, b: PSlab)
    requires
        h.mem.wf(),
        h.mem.slabs.contains_key(a),
        h.mem.slabs.contains_key(b),
        in_slab(h, byte, a),
        in_slab(h, byte, b),
    ensures
        a == b,
{
    if a != b {
        lemma_multiples_apart(a.ptr as int, b.ptr as int, h.mem.geo.slab_len as int);
    }
}

/// A byte lies in one of a number of different slabs exactly once, or in none of them.
proof fn lemma_times_in_slabs<T>(h: Heap<T>, byte: usize, slabs: Seq<PSlab>)
    requires
        h.mem.wf(),
        slabs.no_duplicates(),
        forall|slab: PSlab| #[trigger] slabs.contains(slab) ==> h.mem.slabs.contains_key(slab),
    ensures
        times_in(byte, slab_regions(slabs, h.mem.geo.slab_len)) == if exists|slab: PSlab| #[trigger]
            slabs.contains(slab) && in_slab(h, byte, slab) {
            1nat
        } else {
            0nat
        },
    decreases slabs.len(),
{
    let regions = slab_regions(slabs, h.mem.geo.slab_len);
    if slabs.len() > 0 {
        let front = slabs.drop_last();
        let last = slabs.last();
        assert(regions.drop_last() =~= slab_regions(front, h.mem.geo.slab_len));
        assert(slabs[slabs.len() - 1] == last);
        assert(slabs.contains(last));
        assert forall|slab: PSlab| #[trigger] front.contains(slab) implies slabs.contains(slab)
            && slab != last by {
            let i = front.index_of(slab);
            assert(slabs[i] == slab);
        }
        assert forall|slab: PSlab| #[trigger] slabs.contains(slab) implies slab == last
            || front.contains(slab) by {
            let i = slabs.index_of(slab);
            if i < slabs.len() - 1 {
                assert(front[i] == slab);
            }
        }
        lemma_times_in_slabs(h, byte, front);
        if in_slab(h, byte, last) {
            assert forall|slab: PSlab| #[trigger] front.contains(slab) implies !in_slab(
                h,
                byte,
                slab,
            ) by {
                if in_slab(h, byte, slab) {
                    lemma_one_slab(h, byte, slab, last);
                }
            }
        }
    }
}

/// What holds of a heap to which nothing was given back: every slab is listed, and no slot of
/// a used-up slab is free.
spec fn only_taken<T>(h: Heap<T>) -> bool {
    &&& h.wf()
    &&& all_listed(h)
    &&& h.mem.geo.slab_capacity >= 2
    &&& forall|slab: PSlab| #[trigger]
        h.lists().full.contains(slab) ==> h.lists().slots[slab].len() == 0
}

/// An allocation from such a heap leaves one behind, and the bytes that it takes up more than
/// before, with those that are trimmed, are those that were mapped.
proof fn lemma_take<T>(h: Heap<T>, mapping: Option<usize>, byte: usize)
    requires
        only_taken(h),
        h.usable(mapping),
        mapping is Some ==> h.free is None && h.reusable() is None,
    ensures
        only_taken(h.try_alloc(mapping).0),
        h.try_alloc(mapping).0.mem.geo == h.mem.geo,
        ({
            let request = Request::<T> { mapping, stored: None };
            let now = if in_slabs(h.try_alloc(mapping).0, byte) {
                1nat
            } else {
                0nat
            };
            let before = if in_slabs(h, byte) {
                1nat
            } else {
                0nat
            };
            now + times_in(byte, h.trimmed_by(request)) == before + times_in(
                byte,
                h.mapped_for(request),
            )
        }),
{
    let after = h.try_alloc(mapping).0;
    let w = h.lists();
    assert(h.has_lists(w));
    h.lemma_scan_ends(w);
    law_alloc(h, mapping);
    assert(trim_regions(Trim { head: None, tail: None }) =~= Seq::<Region>::empty());
    if h.free is Some {
        h.lemma_head(w);
        law_alloc_keeps_slabs(h, mapping);
        let v = if h.mem.cell(h.free->0)->next is None {
            h.lemma_shift(w)
        } else {
            h.lemma_pop(w)
        };
        assert(after.has_lists(v));
        after.lemma_lists_unique(after.lists(), v);
        assert forall|slab: PSlab| #[trigger] v.full.contains(slab) implies v.slots[slab].len()
            == 0 by {
            if h.mem.cell(h.free->0)->next is None {
                if slab != w.free[0] {
                    let i = v.full.index_of(slab);
                    assert(w.full[i - 1] == slab);
                }
            }
            assert(slab != w.free[0] ==> w.full.contains(slab));
        }
        assert forall|slab: PSlab| #[trigger] after.lists().full.contains(slab) implies
            after.lists().slots[slab].len() == 0 by {
            assert(v.has(slab));
        }
        assert(after.mem.slabs.dom() =~= h.mem.slabs.dom());
        assert forall|slab: PSlab| #[trigger]
            after.mem.slabs.contains_key(slab) == h.mem.slabs.contains_key(slab) by {
            assert(after.mem.slabs.dom().contains(slab) == h.mem.slabs.dom().contains(slab));
        }
        assert(in_slabs(after, byte) == in_slabs(h, byte));
    } else {
        assert(h.reusable() is None);
        if mapping is Some {
            lemma_take_new(h, mapping->0, byte);
        }
    }
}

/// As `lemma_take`, where the slot comes from new memory.
proof fn lemma_take_new<T>(h: Heap<T>, mapping: usize, byte: usize)
    requires
        only_taken(h),
        h.usable(Some(mapping)),
        h.free is None,
        h.reusable() is None,
    ensures
        only_taken(h.try_alloc(Some(mapping)).0),
        h.try_alloc(Some(mapping)).0.mem.geo == h.mem.geo,
        ({
            let request = Request::<T> { mapping: Some(mapping), stored: None };
            let now = if in_slabs(h.try_alloc(Some(mapping)).0, byte) {
                1nat
            } else {
                0nat
            };
            let before = if in_slabs(h, byte) {
                1nat
            } else {
                0nat
            };
            now + times_in(byte, h.trimmed_by(request)) == before + times_in(
                byte,
                h.mapped_for(request),
            )
        }),
{
    let after = h.try_alloc(Some(mapping)).0;
    let added = h.add_slab(mapping);
    let w = h.lists();
    assert(h.has_lists(w));
    law_mapping_divided(h, mapping);
    h.mem.lemma_chain_start(h.current(), w.free);
    let u = match added.first {
        Some(first) => {
            let v = h.lemma_map(w, first.ptr);
            h.map_slab(first.ptr).lemma_map(v, added.slab.ptr)
        },
        None => h.lemma_map(w, added.slab.ptr),
    };
    assert(added.heap.has_lists(u));
    added.heap.lemma_head(u);
    assert(u.free[0] == added.slab);
    assert(u.slots[added.slab].len() == h.mem.geo.slab_capacity);
    assert(at(u.slots[added.slab], 1) is Some);
    let v = added.heap.lemma_pop(u);
    assert(after.has_lists(v));
    assert(after.free is Some);
    law_alloc_keeps_slabs(h, Some(mapping));
    after.lemma_lists_unique(after.lists(), v);
    h.mem.lemma_chain_start(h.full, w.full);
    assert forall|slab: PSlab| #[trigger] after.lists().full.contains(slab) implies
        after.lists().slots[slab].len() == 0 by {
        assert(v.has(slab));
        assert(w.full.contains(slab));
        assert(h.mem.slabs.contains_key(slab));
        assert(slab != added.slab && added.first != Some(slab));
        assert(v.slots[slab] == w.slots[slab]);
    }
    assert forall|slab: PSlab| #[trigger] after.mem.slabs.contains_key(slab) == (
    h.mem.slabs.contains_key(slab) || slab == added.slab || added.first == Some(slab)) by {}
    // Where the byte is, seen from the mapping.
    let whole = Region { addr: mapping, len: h.mem.geo.slab_alloc };
    lemma_times_in_one(byte, whole);
    if added.first is Some {
        assert(trim_regions(added.trim) =~= Seq::<Region>::empty());
    } else {
        let head = added.trim.head->0;
        let tail = added.trim.tail->0;
        assert(trim_regions(added.trim) =~= seq![head] + seq![tail]);
        lemma_times_in_both(byte, seq![head], seq![tail]);
        lemma_times_in_one(byte, head);
        lemma_times_in_one(byte, tail);
    }
    assert(in_slab(after, byte, added.slab) ==> in_slabs(after, byte)) by {
        assert(after.mem.slabs.contains_key(added.slab));
    }
    if added.first is Some {
        assert(after.mem.slabs.contains_key(added.first->0));
    }
    if in_slabs(h, byte) {
        let slab = choose|slab: PSlab| #[trigger]
            h.mem.slabs.contains_key(slab) && in_slab(h, byte, slab);
        assert(after.mem.slabs.contains_key(slab));
        assert(!lies_in(byte, whole));
    }
    if in_slabs(after, byte) {
        let slab = choose|slab: PSlab| #[trigger]
            after.mem.slabs.contains_key(slab) && in_slab(after, byte, slab);
        assert(h.mem.slabs.contains_key(slab) ==> in_slabs(h, byte));
    }
}

/// As `lemma_take`, with an object stored in the slot.
proof fn lemma_request<T>(h: Heap<T>, request: Request<T>, byte: usize)
    requires
        only_taken(h),
        h.serves(request),
    ensures
        only_taken(h.after_request(request)),
        h.after_request(request).mem.geo == h.mem.geo,
        ({
            let now = if in_slabs(h.after_request(request), byte) {
                1nat
            } else {
                0nat
            };
            let before = if in_slabs(h, byte) {
                1nat
            } else {
                0nat
            };
            now + times_in(byte, h.trimmed_by(request)) == before + times_in(
                byte,
                h.mapped_for(request),
            )
        }),
{
    let taken = h.try_alloc(request.mapping).0;
    let after = h.after_request(request);
    let plain = Request::<T> { mapping: request.mapping, stored: None };
    lemma_take(h, request.mapping, byte);
    assert(h.trimmed_by(request) == h.trimmed_by(plain));
    assert(h.mapped_for(request) == h.mapped_for(plain));
    match (h.try_alloc(request.mapping).1, request.stored) {
        (Ok(allocation), Some(value)) => {
            let slot = PSlot { ptr: allocation.ptr };
            let cell = Slot::Occupied { value };
            law_alloc(h, request.mapping);
            law_write(taken, slot, cell);
            let w = taken.lists();
            taken.lemma_available(w);
            taken.lemma_write(w, slot, cell);
            after.lemma_lists_unique(after.lists(), w);
            assert forall|slab: PSlab| #[trigger] after.mem.slabs.contains_key(slab)
                == taken.mem.slabs.contains_key(slab) by {}
            assert forall|slab: PSlab| #[trigger]
                after.mem.slabs.contains_key(slab) implies after.listed(slab) by {
                assert(taken.listed(slab));
            }
            assert forall|slab: PSlab| #[trigger] after.lists().full.contains(slab) implies
                after.lists().slots[slab].len() == 0 by {
                assert(w.has(slab));
            }
            if in_slabs(taken, byte) {
                let slab = choose|slab: PSlab| #[trigger]
                    taken.mem.slabs.contains_key(slab) && in_slab(taken, byte, slab);
                assert(after.mem.slabs.contains_key(slab) && in_slab(after, byte, slab));
            }
            if in_slabs(after, byte) {
                let slab = choose|slab: PSlab| #[trigger]
                    after.mem.slabs.contains_key(slab) && in_slab(after, byte, slab);
                assert(taken.mem.slabs.contains_key(slab) && in_slab(taken, byte, slab));
            }
        },
        _ => {},
    }
}

/// What a run of requests leaves behind.
proof fn lemma_run<T>(h: Heap<T>, requests: Seq<Request<T>>, byte: usize)
    requires
        only_taken(h),
        h.serves_run(requests),
        !in_slabs(h, byte),
    ensures
        only_taken(h.after_run(requests)),
        h.after_run(requests).mem.geo == h.mem.geo,
        ({
            let now = if in_slabs(h.after_run(requests), byte) {
                1nat
            } else {
                0nat
            };
            times_in(byte, h.mapped_in(requests)) == times_in(byte, h.trimmed_in(requests)) + now
        }),
    decreases requests.len(),
{
    if requests.len() > 0 {
        let before = requests.drop_last();
        let last = requests.last();
        let heap = h.after_run(before);
        lemma_run(h, before, byte);
        lemma_request(heap, last, byte);
        lemma_times_in_both(byte, h.mapped_in(before), heap.mapped_for(last));
        lemma_times_in_both(byte, h.trimmed_in(before), heap.trimmed_by(last));
    }
}

/// Nothing leaks: an allocator that starts without slabs, whose slabs hold two slots or more,
/// and to which nothing is given back, can be released after any requests, whether objects
/// were stored or not. Then every byte has been unmapped as often as it was mapped, either
/// right after the request that it was mapped for or with the slab that it lies in. What is
/// unmapped in the end is unmapped once.
pub proof fn law_run_unmaps_all<T>(h: Heap<T>, requests: Seq<Request<T>>, byte: usize)
    requires
        h.mem.geo.wf(),
        h.mem.geo.slab_capacity >= 2,
        h.mem.slabs == Map::<PSlab, SlabState<T>>::empty(),
        h.free is None,
        h.full is None,
        h.serves_run(requests),
    ensures
        ({
            let end = h.after_run(requests);
            let released = slab_regions(end.released(), h.mem.geo.slab_len);
            &&& end.wf()
            &&& end.mem.geo == h.mem.geo
            &&& times_in(byte, h.mapped_in(requests)) == times_in(byte, h.trimmed_in(requests))
                + times_in(byte, released)
            &&& times_in(byte, released) <= 1
        }),
{
    h.lemma_empty();
    let w = h.lists();
    assert(h.has_lists(w));
    h.mem.lemma_chain_start(h.full, w.full);
    assert(only_taken(h)) by {
        assert(w.full.len() == 0);
    }
    lemma_run(h, requests, byte);
    let end = h.after_run(requests);
    law_release(end);
    assert(end.has_lists(end.lists()));
    assert forall|slab: PSlab| #[trigger]
        end.released().contains(slab) implies end.mem.slabs.contains_key(slab) by {
        assert(end.listed(slab));
    }
    lemma_times_in_slabs(end, byte, end.released());
    if in_slabs(end, byte) {
        let slab = choose|slab: PSlab| #[trigger]
            end.mem.slabs.contains_key(slab) && in_slab(end, byte, slab);
        assert(end.listed(slab));
        assert(end.released().contains(slab));
    }
}

} // verus!
