//! What each step of the allocator does to its lists.

use vstd::arithmetic::power2::is_pow2;
use vstd::prelude::*;

use crate::slab::lists::{at, Lists};
use crate::slab::model::{Heap, Memory, PSlab, PSlot, SlabState, Slot};

verus! {

impl<T> Memory<T> {
    /// A list without its first slot.
    pub proof fn lemma_list_drop_first(self, slab: PSlab, start: Option<PSlot>, slots: Seq<PSlot>)
        requires
            self.is_list(slab, start, slots),
            slots.len() > 0,
        ensures
            self.is_list(slab, at(slots, 1), slots.drop_first()),
            !slots.drop_first().contains(slots[0]),
    {
        reveal(Memory::is_list);
        let rest = slots.drop_first();
        assert forall|i: int| 0 <= i < rest.len() implies {
            &&& self.is_slot(#[trigger] rest[i])
            &&& self.slab_of(rest[i]) == slab
            &&& self.cell(rest[i]) == (Slot::<T>::Vacant { next: at(rest, i + 1) })
        } by {
            assert(rest[i] == slots[i + 1]);
            assert(at(rest, i + 1) == at(slots, i + 2));
        }
        assert(rest.no_duplicates());
    }
}

impl<T> Heap<T> {
    /// The next slot heads the list of the first slab.
    pub proof fn lemma_head(self, w: Lists)
        requires
            self.has_lists(w),
            self.free is Some,
        ensures
            w.free.len() > 0,
            w.free.contains(w.free[0]),
            self.current() == Some(w.free[0]),
            self.mem.slabs.contains_key(w.free[0]),
            w.slots[w.free[0]].len() > 0,
            w.slots[w.free[0]][0] == self.free->0,
            w.slots[w.free[0]].contains(self.free->0),
            self.mem.is_slot(self.free->0),
            self.mem.cell(self.free->0) == (Slot::<T>::Vacant { next: at(w.slots[w.free[0]], 1) }),
            self.mem.slabs[w.free[0]].next == at(w.free, 1),
    {
        self.mem.lemma_chain_start(self.current(), w.free);
        self.mem.lemma_chain_at(self.current(), w.free, 0);
        let slab = w.free[0];
        let slots = w.slots[slab];
        self.mem.lemma_list_at(slab, self.free, slots, 0);
    }

    /// Taking the next slot without looking whether it was the last one of its slab. If it
    /// was, its slab and those behind it are in no list any more.
    pub proof fn lemma_pop(self, w: Lists) -> (v: Lists)
        requires
            self.has_lists(w),
            self.free is Some,
        ensures
            (Heap { free: self.mem.cell(self.free->0)->next, ..self }).has_lists(v),
            at(w.slots[w.free[0]], 1) is Some ==> v == (Lists {
                slots: w.slots.insert(w.free[0], w.slots[w.free[0]].drop_first()),
                ..w
            }),
            at(w.slots[w.free[0]], 1) is None ==> v == (Lists { free: Seq::empty(), ..w }),
    {
        self.lemma_head(w);
        let slab = w.free[0];
        let slots = w.slots[slab];
        let next = at(slots, 1);
        let h = Heap { free: next, ..self };
        self.mem.lemma_list_drop_first(slab, self.free, slots);
        if next is Some {
            let v = Lists { slots: w.slots.insert(slab, slots.drop_first()), ..w };
            self.mem.lemma_list_at(slab, self.free, slots, 1);
            assert(h.current() == self.current());
            assert forall|b: PSlab| #[trigger] v.free.contains(b) implies {
                &&& h.mem.is_list(b, h.first_free(b), v.slots[b])
                &&& v.slots[b].len() > 0
            } by {
                assert(w.free.contains(b));
            }
            assert forall|b: PSlab| #[trigger] v.full.contains(b) implies h.mem.is_list(
                b,
                h.mem.slabs[b].free,
                v.slots[b],
            ) by {
                assert(b != slab);
            }
            v
        } else {
            let v = Lists { free: Seq::empty(), ..w };
            assert(h.mem.is_chain(h.current(), v.free)) by {
                reveal(Memory::is_chain);
            }
            v
        }
    }

    /// Taking the last slot of the first slab: the slab joins the used-up ones.
    pub proof fn lemma_shift(self, w: Lists) -> (v: Lists)
        requires
            self.has_lists(w),
            self.free is Some,
            self.mem.cell(self.free->0)->next is None,
        ensures
            (Heap { free: None, ..self }).shift_freelist(self.free->0).has_lists(v),
            v == (Lists {
                free: w.free.drop_first(),
                full: seq![w.free[0]] + w.full,
                slots: w.slots.insert(w.free[0], Seq::empty()),
            }),
    {
        self.lemma_head(w);
        let slab = w.free[0];
        let h = (Heap { free: None, ..self }).shift_freelist(self.free->0);
        let v = Lists {
            free: w.free.drop_first(),
            full: seq![slab] + w.full,
            slots: w.slots.insert(slab, Seq::empty()),
        };
        assert(self.mem.same_slots(h.mem)) by {
            assert(h.mem.slabs.dom() =~= self.mem.slabs.dom());
        }
        self.mem.lemma_same_lists(h.mem);
        let next = at(w.free, 1);
        if next is Some {
            let b = w.free[1];
            self.mem.lemma_chain_at(self.current(), w.free, 1);
            assert(b != slab);
            assert(self.first_free(b) == self.mem.slabs[b].free);
            assert(h.free == self.mem.slabs[b].free);
            self.mem.lemma_list_at(b, self.mem.slabs[b].free, w.slots[b], 0);
        }
        assert(h.current() == next);
        assert(h.mem.is_chain(h.current(), v.free)) by {
            reveal(Memory::is_chain);
            assert forall|i: int| 0 <= i < v.free.len() implies {
                &&& h.mem.slabs.contains_key(#[trigger] v.free[i])
                &&& h.mem.slabs[v.free[i]].next == at(v.free, i + 1)
            } by {
                assert(v.free[i] == w.free[i + 1]);
                assert(at(v.free, i + 1) == at(w.free, i + 2));
            }
        }
        assert(h.mem.is_chain(h.full, v.full)) by {
            reveal(Memory::is_chain);
            assert forall|i: int| 0 <= i < v.full.len() implies {
                &&& h.mem.slabs.contains_key(#[trigger] v.full[i])
                &&& h.mem.slabs[v.full[i]].next == at(v.full, i + 1)
            } by {
                assert(at(v.full, i + 1) == at(w.full, i));
                if i > 0 {
                    assert(v.full[i] == w.full[i - 1]);
                    assert(w.full.contains(w.full[i - 1]));
                }
            }
        }
        assert(v.free.no_duplicates());
        assert(v.full.no_duplicates()) by {
            assert(!w.full.contains(slab));
            assert forall|i: int, j: int| 0 <= i < j < v.full.len() implies v.full[i]
                != v.full[j] by {
                assert(w.full.contains(w.full[j - 1]));
            }
        }
        assert forall|b: PSlab| !(v.free.contains(b) && #[trigger] v.full.contains(b)) by {
            if v.free.contains(b) && v.full.contains(b) {
                let i = v.free.index_of(b);
                assert(w.free[i + 1] == b);
                assert(w.free.contains(b));
                let j = v.full.index_of(b);
                if j > 0 {
                    assert(w.full[j - 1] == b);
                    assert(w.full.contains(b));
                }
            }
        }
        assert forall|b: PSlab| #[trigger] v.free.contains(b) implies {
            &&& h.mem.is_list(b, h.first_free(b), v.slots[b])
            &&& v.slots[b].len() > 0
        } by {
            let i = v.free.index_of(b);
            assert(w.free[i + 1] == b);
            assert(w.free.contains(b));
            assert(b != slab);
            assert(self.first_free(b) == self.mem.slabs[b].free);
            assert(h.first_free(b) == self.mem.slabs[b].free);
        }
        assert forall|b: PSlab| #[trigger] v.full.contains(b) implies h.mem.is_list(
            b,
            h.mem.slabs[b].free,
            v.slots[b],
        ) by {
            if b != slab {
                let j = v.full.index_of(b);
                assert(w.full[j - 1] == b);
                assert(w.full.contains(b));
            } else {
                h.mem.lemma_list_empty(b, h.mem.slabs[b].free, v.slots[b]);
            }
        }
        v
    }
}

impl<T> Heap<T> {
    /// A walk along the used-up slabs follows their list.
    pub proof fn lemma_scan_follows(self, w: Lists, passed: Seq<PSlab>)
        requires
            self.has_lists(w),
            self.is_scan(passed),
        ensures
            passed.len() <= w.full.len(),
            passed == w.full.take(passed.len() as int),
            self.scan_stop(passed) == at(w.full, passed.len() as int),
    {
        assert forall|i: int| 0 <= i < passed.len() implies Some(passed[i]) == #[trigger] at(
            w.full,
            i,
        ) by {
            self.lemma_scan_follows_at(w, passed, i);
        }
        if passed.len() > w.full.len() {
            assert(at(w.full, w.full.len() as int) == Some(passed[w.full.len() as int]));
        }
        assert forall|i: int| 0 <= i < passed.len() implies passed[i] == w.full[i] by {
            assert(at(w.full, i) == Some(passed[i]));
        }
        assert(passed =~= w.full.take(passed.len() as int));
        if passed.len() > 0 {
            assert(passed.last() == w.full[passed.len() - 1]);
            self.mem.lemma_chain_at(self.full, w.full, passed.len() - 1);
        } else {
            self.mem.lemma_chain_start(self.full, w.full);
        }
    }

    proof fn lemma_scan_follows_at(self, w: Lists, passed: Seq<PSlab>, i: int)
        requires
            self.has_lists(w),
            self.is_scan(passed),
            0 <= i < passed.len(),
        ensures
            at(w.full, i) == Some(passed[i]),
        decreases i,
    {
        if i > 0 {
            self.lemma_scan_follows_at(w, passed, i - 1);
            assert(self.mem.slabs[passed[i - 1]].next == Some(passed[i]));
            self.mem.lemma_chain_at(self.full, w.full, i - 1);
        } else {
            self.mem.lemma_chain_start(self.full, w.full);
        }
    }

    /// The walk along the used-up slabs of a well-formed heap ends.
    pub proof fn lemma_scan_ends(self, w: Lists)
        requires
            self.has_lists(w),
        ensures
            self.scan_ends(),
            self.is_scan(self.scan()),
            self.reusable() matches Some(slab) ==> {
                let n = self.scan().len() as int;
                &&& n < w.full.len()
                &&& w.full[n] == slab
                &&& w.full.contains(slab)
                &&& w.slots[slab].len() > 0
                &&& self.mem.slabs[slab].free == Some(w.slots[slab][0])
            },
            self.reusable() is None ==> forall|slab: PSlab| #[trigger]
                w.full.contains(slab) ==> w.slots[slab].len() == 0,
    {
        let n = self.count_used_up(w, w.full.len() as int);
        self.lemma_count_used_up(w, w.full.len() as int);
        let passed = w.full.take(n);
        assert(self.is_scan(passed)) by {
            reveal(Memory::is_chain);
            assert forall|i: int| 0 <= i < passed.len() implies {
                &&& self.mem.slabs.contains_key(#[trigger] passed[i])
                &&& self.mem.slabs[passed[i]].free is None
                &&& i + 1 < passed.len() ==> self.mem.slabs[passed[i]].next == Some(passed[i + 1])
            } by {
                assert(passed[i] == w.full[i]);
            }
            if n > 0 {
                assert(passed.last() == w.full[n - 1]);
            }
            assert(self.scan_stop(passed) == at(w.full, n));
        }
        let scan = self.scan();
        assert(self.is_scan(scan));
        self.lemma_scan_follows(w, scan);
        if self.reusable() is Some {
            let slab = w.full[scan.len() as int];
            assert(w.full.contains(slab));
            self.mem.lemma_list_empty(slab, self.mem.slabs[slab].free, w.slots[slab]);
            self.mem.lemma_list_at(slab, self.mem.slabs[slab].free, w.slots[slab], 0);
        } else {
            assert(scan =~= w.full);
            assert forall|slab: PSlab| #[trigger] w.full.contains(slab) implies w.slots[slab].len()
                == 0 by {
                let i = w.full.index_of(slab);
                assert(scan[i] == slab);
                self.mem.lemma_list_empty(slab, self.mem.slabs[slab].free, w.slots[slab]);
            }
        }
    }

    /// How many of the first `n` used-up slabs lie ahead of one with a free slot.
    spec fn count_used_up(self, w: Lists, n: int) -> int
        decreases n,
    {
        if n <= 0 {
            0
        } else {
            let before = self.count_used_up(w, n - 1);
            if before == n - 1 && self.mem.slabs[w.full[n - 1]].free is None {
                n
            } else {
                before
            }
        }
    }

    proof fn lemma_count_used_up(self, w: Lists, n: int)
        requires
            0 <= n <= w.full.len(),
        ensures
            0 <= self.count_used_up(w, n) <= n,
            forall|i: int|
                0 <= i < self.count_used_up(w, n) ==> self.mem.slabs[#[trigger] w.full[i]].free
                    is None,
            self.count_used_up(w, n) < n ==> self.mem.slabs[w.full[self.count_used_up(
                w,
                n,
            )]].free is Some,
        decreases n,
    {
        if n > 0 {
            self.lemma_count_used_up(w, n - 1);
        }
    }

    /// Taking a slab that got slots back out of the used-up ones.
    pub proof fn lemma_reuse(self, w: Lists, slab: PSlab) -> (v: Lists)
        requires
            self.has_lists(w),
            self.free is None,
            self.reusable() == Some(slab),
        ensures
            self.reuse_slab(slab).has_lists(v),
            v == (Lists {
                free: seq![slab],
                full: w.full.remove(self.scan().len() as int),
                ..w
            }),
            self.reuse_slab(slab).free == self.mem.slabs[slab].free,
            w.full.contains(slab),
            w.slots[slab].len() > 0,
            self.mem.slabs[slab].free == Some(w.slots[slab][0]),
            self.reuse_slab(slab).mem.slabs[slab].free == self.mem.slabs[slab].free,
            self.mem.same_slots(self.reuse_slab(slab).mem),
    {
        self.lemma_scan_ends(w);
        let passed = self.scan();
        self.lemma_scan_follows(w, passed);
        let n = passed.len() as int;
        let h = self.reuse_slab(slab);
        let v = Lists { free: seq![slab], full: w.full.remove(n), ..w };
        if n > 0 {
            assert(passed.last() == w.full[n - 1]);
            assert(w.full[n - 1] != slab);
            self.mem.lemma_chain_at(self.full, w.full, n - 1);
        }
        self.mem.lemma_chain_at(self.full, w.full, n);
        assert(self.mem.same_slots(h.mem)) by {
            assert(h.mem.slabs.dom() =~= self.mem.slabs.dom());
        }
        self.mem.lemma_same_lists(h.mem);
        self.mem.lemma_chain_start(self.current(), w.free);
        assert(w.free.len() == 0);
        self.mem.lemma_list_at(slab, self.mem.slabs[slab].free, w.slots[slab], 0);
        assert(h.current() == Some(slab));
        assert forall|i: int| 0 <= i < v.full.len() implies v.full[i] == (if i < n {
            w.full[i]
        } else {
            w.full[i + 1]
        }) by {}
        assert forall|i: int| 0 <= i < v.full.len() implies w.full.contains(#[trigger] v.full[i])
            && v.full[i] != slab by {}
        assert(h.mem.is_chain(h.full, v.full)) by {
            reveal(Memory::is_chain);
            assert forall|i: int| 0 <= i < v.full.len() implies {
                &&& h.mem.slabs.contains_key(#[trigger] v.full[i])
                &&& h.mem.slabs[v.full[i]].next == at(v.full, i + 1)
            } by {
                if i + 1 < n {
                    assert(v.full[i] != w.full[n - 1]);
                } else if i + 1 == n {
                    assert(at(v.full, n) == at(w.full, n + 1));
                } else {
                    assert(at(v.full, i + 1) == at(w.full, i + 2));
                    if n > 0 {
                        assert(v.full[i] != w.full[n - 1]);
                    }
                }
            }
            assert(h.full == at(v.full, 0));
        }
        assert(h.mem.is_chain(h.current(), v.free)) by {
            reveal(Memory::is_chain);
        }
        assert(v.full.no_duplicates());
        assert forall|b: PSlab| !(v.free.contains(b) && #[trigger] v.full.contains(b)) by {
            if v.full.contains(b) {
                let i = v.full.index_of(b);
                assert(v.full[i] != slab);
            }
        }
        assert forall|b: PSlab| #[trigger] v.free.contains(b) implies {
            &&& h.mem.is_list(b, h.first_free(b), v.slots[b])
            &&& v.slots[b].len() > 0
        } by {
            assert(b == slab);
        }
        assert forall|b: PSlab| #[trigger] v.full.contains(b) implies h.mem.is_list(
            b,
            h.mem.slabs[b].free,
            v.slots[b],
        ) by {
            let i = v.full.index_of(b);
            assert(w.full.contains(v.full[i]));
        }
        v
    }
}

impl<T> Memory<T> {
    /// A new slab leaves the lists of others as they are.
    proof fn lemma_grow_lists(self, slab: PSlab, state: SlabState<T>)
        requires
            !self.slabs.contains_key(slab),
        ensures
            forall|slot: PSlot| #[trigger]
                self.is_slot(slot) ==> self.with_slab(slab, state).is_slot(slot) && self.with_slab(
                    slab,
                    state,
                ).cell(slot) == self.cell(slot),
            forall|b: PSlab, start: Option<PSlot>, slots: Seq<PSlot>|
                self.is_list(b, start, slots) ==> #[trigger] self.with_slab(slab, state).is_list(
                    b,
                    start,
                    slots,
                ),
    {
        reveal(Memory::is_list);
        let m = self.with_slab(slab, state);
        assert forall|b: PSlab, start: Option<PSlot>, slots: Seq<PSlot>|
            self.is_list(b, start, slots) implies #[trigger] m.is_list(b, start, slots) by {
            assert forall|i: int| 0 <= i < slots.len() implies {
                &&& m.is_slot(#[trigger] slots[i])
                &&& m.slab_of(slots[i]) == b
                &&& m.cell(slots[i]) == (Slot::<T>::Vacant { next: at(slots, i + 1) })
            } by {
                assert(self.is_slot(slots[i]));
            }
        }
    }

    /// The slots of a new slab form a list.
    pub proof fn lemma_fresh_list(self, slab: PSlab, next: Option<PSlab>)
        requires
            self.geo.wf(),
            is_pow2(self.geo.slab_len as int),
            self.aligned(slab),
        ensures
            ({
                let first = Some(self.slot_at(slab, 0));
                let state = SlabState { next, free: first, slots: self.fresh_slots(slab) };
                self.with_slab(slab, state).is_list(slab, first, self.all_slots(slab))
            }),
    {
        reveal(Memory::is_list);
        let first = Some(self.slot_at(slab, 0));
        let state = SlabState { next, free: first, slots: self.fresh_slots(slab) };
        let m = self.with_slab(slab, state);
        let slots = self.all_slots(slab);
        assert forall|i: int| 0 <= i < slots.len() implies {
            &&& m.is_slot(#[trigger] slots[i])
            &&& m.slab_of(slots[i]) == slab
            &&& m.cell(slots[i]) == (Slot::<T>::Vacant { next: at(slots, i + 1) })
            &&& m.index_of(slots[i]) == i
        } by {
            m.lemma_slot_at(slab, i);
            assert(slots[i] == m.slot_at(slab, i));
            if i + 1 < slots.len() {
                assert(slots[i + 1] == self.slot_at(slab, i + 1));
            }
        }
        assert forall|i: int, j: int|
            0 <= i < slots.len() && 0 <= j < slots.len() && i != j implies slots[i] != slots[j] by {
            assert(m.index_of(slots[i]) == i);
            assert(m.index_of(slots[j]) == j);
        }
    }

    /// Writing to a slot leaves lists without it as they are.
    proof fn lemma_cell_lists(self, slot: PSlot, cell: Slot<T>)
        requires
            self.wf(),
            self.is_slot(slot),
        ensures
            forall|b: PSlab, start: Option<PSlot>, slots: Seq<PSlot>|
                self.is_list(b, start, slots) && !slots.contains(slot) ==> #[trigger] self.with_cell(
                    slot,
                    cell,
                ).is_list(b, start, slots),
    {
        reveal(Memory::is_list);
        self.lemma_cell_frame(slot, cell);
        let m = self.with_cell(slot, cell);
        assert forall|b: PSlab, start: Option<PSlot>, slots: Seq<PSlot>|
            self.is_list(b, start, slots) && !slots.contains(slot) implies #[trigger] m.is_list(
            b,
            start,
            slots,
        ) by {
            assert forall|i: int| 0 <= i < slots.len() implies {
                &&& m.is_slot(#[trigger] slots[i])
                &&& m.slab_of(slots[i]) == b
                &&& m.cell(slots[i]) == (Slot::<T>::Vacant { next: at(slots, i + 1) })
            } by {
                assert(slots.contains(slots[i]));
                assert(self.is_slot(slots[i]));
            }
        }
    }

    /// A slot that is linked to a list heads the longer list.
    proof fn lemma_list_push(
        self,
        slab: PSlab,
        start: Option<PSlot>,
        slots: Seq<PSlot>,
        slot: PSlot,
    )
        requires
            self.wf(),
            self.is_slot(slot),
            self.slab_of(slot) == slab,
            self.is_list(slab, start, slots),
            !slots.contains(slot),
        ensures
            self.with_cell(slot, Slot::Vacant { next: start }).is_list(
                slab,
                Some(slot),
                seq![slot] + slots,
            ),
    {
        let cell = Slot::Vacant { next: start };
        let m = self.with_cell(slot, cell);
        self.lemma_cell_lists(slot, cell);
        self.lemma_cell_frame(slot, cell);
        assert(m.is_list(slab, start, slots));
        reveal(Memory::is_list);
        let longer = seq![slot] + slots;
        assert forall|i: int| 0 <= i < longer.len() implies {
            &&& m.is_slot(#[trigger] longer[i])
            &&& m.slab_of(longer[i]) == slab
            &&& m.cell(longer[i]) == (Slot::<T>::Vacant { next: at(longer, i + 1) })
        } by {
            assert(at(longer, i + 1) == at(slots, i));
            if i > 0 {
                assert(longer[i] == slots[i - 1]);
            }
        }
        assert forall|i: int, j: int| 0 <= i < j < longer.len() implies longer[i] != longer[j] by {
            assert(slots.contains(slots[j - 1]));
        }
    }
}

impl<T> Heap<T> {
    /// Whether the first slab's header says where its free slots start. It does when no slot
    /// was taken from the slab yet.
    pub open spec fn synced(self) -> bool {
        self.current() matches Some(slab) ==> self.mem.slabs[slab].free == self.free
    }

    /// A new slab goes ahead of those that have free slots.
    pub proof fn lemma_map(self, w: Lists, ptr: usize) -> (v: Lists)
        requires
            self.has_lists(w),
            self.synced(),
            is_pow2(self.mem.geo.slab_len as int),
            self.mem.aligned(PSlab { ptr }),
            !self.mem.slabs.contains_key(PSlab { ptr }),
        ensures
            self.map_slab(ptr).has_lists(v),
            self.map_slab(ptr).synced(),
            self.map_slab(ptr).current() == Some(PSlab { ptr }),
            v == (Lists {
                free: seq![PSlab { ptr }] + w.free,
                full: w.full,
                slots: w.slots.insert(PSlab { ptr }, self.mem.all_slots(PSlab { ptr })),
            }),
            forall|slot: PSlot| #[trigger]
                self.mem.is_slot(slot) ==> self.map_slab(ptr).mem.is_slot(slot) && self.map_slab(
                    ptr,
                ).mem.cell(slot) == self.mem.cell(slot),
    {
        let slab = PSlab { ptr };
        let h = self.map_slab(ptr);
        let first = Some(self.mem.slot_at(slab, 0));
        let state = SlabState {
            next: self.current(),
            free: first,
            slots: self.mem.fresh_slots(slab),
        };
        let v = Lists {
            free: seq![slab] + w.free,
            full: w.full,
            slots: w.slots.insert(slab, self.mem.all_slots(slab)),
        };
        self.mem.lemma_grow_lists(slab, state);
        self.mem.lemma_fresh_list(slab, self.current());
        self.mem.lemma_slot_at(slab, 0);
        assert(h.current() == Some(slab));
        assert(h.mem.wf());
        self.mem.lemma_chain_start(self.current(), w.free);
        self.mem.lemma_chain_start(self.full, w.full);
        assert(h.mem.is_chain(h.current(), v.free)) by {
            reveal(Memory::is_chain);
            assert forall|i: int| 0 <= i < v.free.len() implies {
                &&& h.mem.slabs.contains_key(#[trigger] v.free[i])
                &&& h.mem.slabs[v.free[i]].next == at(v.free, i + 1)
            } by {
                assert(at(v.free, i + 1) == at(w.free, i));
                if i > 0 {
                    assert(v.free[i] == w.free[i - 1]);
                    assert(w.free.contains(w.free[i - 1]));
                }
            }
        }
        assert(h.mem.is_chain(h.full, v.full)) by {
            reveal(Memory::is_chain);
            assert forall|i: int| 0 <= i < v.full.len() implies {
                &&& h.mem.slabs.contains_key(#[trigger] v.full[i])
                &&& h.mem.slabs[v.full[i]].next == at(v.full, i + 1)
            } by {
                assert(w.full.contains(w.full[i]));
            }
        }
        assert(v.free.no_duplicates()) by {
            assert forall|i: int, j: int| 0 <= i < j < v.free.len() implies v.free[i]
                != v.free[j] by {
                assert(w.free.contains(w.free[j - 1]));
            }
        }
        assert forall|b: PSlab| #[trigger] v.free.contains(b) implies b == slab || w.free.contains(
            b,
        ) by {
            let i = v.free.index_of(b);
            if i > 0 {
                assert(w.free[i - 1] == b);
            }
        }
        assert forall|b: PSlab| #[trigger] v.free.contains(b) implies {
            &&& h.mem.is_list(b, h.first_free(b), v.slots[b])
            &&& v.slots[b].len() > 0
        } by {
            if b != slab {
                assert(w.free.contains(b));
                assert(self.first_free(b) == self.mem.slabs[b].free);
            }
        }
        assert forall|b: PSlab| #[trigger] v.full.contains(b) implies h.mem.is_list(
            b,
            h.mem.slabs[b].free,
            v.slots[b],
        ) by {
            assert(w.full.contains(b));
        }
        v
    }
}

impl<T> Heap<T> {
    /// Whether giving back a slot keeps the heap well-formed: there is another free slot, or
    /// the slot is a linked one without successor, of a slab that is in no list.
    pub open spec fn free_keeps(self, slot: PSlot) -> bool {
        let slab = self.mem.slab_of(slot);
        ||| self.free is Some
        ||| {
            &&& !self.lists().full.contains(slab)
            &&& self.mem.slabs[slab].next is None
            &&& self.mem.cell(slot) == (Slot::<T>::Vacant { next: None })
        }
    }

    /// Giving back a slot while others are free.
    pub proof fn lemma_free(self, w: Lists, slot: PSlot) -> (v: Lists)
        requires
            self.has_lists(w),
            self.free is Some,
            self.mem.is_slot(slot),
            !(w.has(self.mem.slab_of(slot)) && w.slots[self.mem.slab_of(slot)].contains(slot)),
        ensures
            self.free_unchecked(slot).has_lists(v),
            w.has(self.mem.slab_of(slot)) ==> v == (Lists {
                slots: w.slots.insert(
                    self.mem.slab_of(slot),
                    seq![slot] + w.slots[self.mem.slab_of(slot)],
                ),
                ..w
            }),
            !w.has(self.mem.slab_of(slot)) ==> v == w,
    {
        self.lemma_head(w);
        let slab = self.mem.slab_of(slot);
        let h = self.free_unchecked(slot);
        let current = w.free[0];
        let start = self.first_free(slab);
        let cell = Slot::Vacant { next: start };
        // The header is written first, then the slot.
        let m = if slab == current {
            self.mem
        } else {
            self.mem.with_free(slab, Some(slot))
        };
        assert(self.mem.same_slots(m)) by {
            assert(m.slabs.dom() =~= self.mem.slabs.dom());
        }
        self.mem.lemma_same_lists(m);
        self.mem.lemma_same_cells(m);
        assert(h.mem == m.with_cell(slot, cell));
        m.lemma_cell_lists(slot, cell);
        m.lemma_cell_frame(slot, cell);
        let v = if w.has(slab) {
            Lists { slots: w.slots.insert(slab, seq![slot] + w.slots[slab]), ..w }
        } else {
            w
        };
        if w.has(slab) {
            if w.full.contains(slab) {
                assert(slab != current);
            }
            m.lemma_list_push(slab, start, w.slots[slab], slot);
        }
        assert(h.current() == self.current());
        assert forall|b: PSlab| self.mem.slabs.contains_key(b) implies h.mem.slabs.contains_key(b)
            && h.mem.slabs[b].next == self.mem.slabs[b].next by {}
        assert(h.mem.is_chain(h.current(), v.free)) by {
            reveal(Memory::is_chain);
            assert forall|i: int| 0 <= i < v.free.len() implies {
                &&& h.mem.slabs.contains_key(#[trigger] v.free[i])
                &&& h.mem.slabs[v.free[i]].next == at(v.free, i + 1)
            } by {
                assert(self.mem.slabs.contains_key(w.free[i]));
            }
        }
        assert(h.mem.is_chain(h.full, v.full)) by {
            reveal(Memory::is_chain);
            assert forall|i: int| 0 <= i < v.full.len() implies {
                &&& h.mem.slabs.contains_key(#[trigger] v.full[i])
                &&& h.mem.slabs[v.full[i]].next == at(v.full, i + 1)
            } by {
                assert(self.mem.slabs.contains_key(w.full[i]));
            }
        }
        assert forall|b: PSlab|
            b != slab && self.mem.is_list(b, self.first_free(b), w.slots[b]) implies h.mem.is_list(
            b,
            self.first_free(b),
            #[trigger] w.slots[b],
        ) by {
            if w.slots[b].contains(slot) {
                let i = w.slots[b].index_of(slot);
                self.mem.lemma_list_at(b, self.first_free(b), w.slots[b], i);
            }
        }
        assert forall|b: PSlab| #[trigger] v.free.contains(b) implies {
            &&& h.mem.is_list(b, h.first_free(b), v.slots[b])
            &&& v.slots[b].len() > 0
        } by {
            assert(w.free.contains(b));
            if b != slab {
                assert(w.slots[b] == v.slots[b]);
                assert(h.first_free(b) == self.first_free(b));
            } else {
                assert(h.first_free(b) == Some(slot));
            }
        }
        assert forall|b: PSlab| #[trigger] v.full.contains(b) implies h.mem.is_list(
            b,
            h.mem.slabs[b].free,
            v.slots[b],
        ) by {
            assert(w.full.contains(b));
            assert(b != current);
            assert(self.first_free(b) == self.mem.slabs[b].free);
            if b != slab {
                assert(w.slots[b] == v.slots[b]);
            }
        }
        v
    }

    /// Giving back a slot while none is free, of a slab that is in no list.
    pub proof fn lemma_free_alone(self, w: Lists, slot: PSlot) -> (v: Lists)
        requires
            self.has_lists(w),
            self.free is None,
            self.mem.is_slot(slot),
            self.free_keeps(slot),
        ensures
            self.free_unchecked(slot).has_lists(v),
            v == (Lists {
                free: seq![self.mem.slab_of(slot)],
                full: w.full,
                slots: w.slots.insert(self.mem.slab_of(slot), seq![slot]),
            }),
    {
        self.lemma_lists_unique(self.lists(), w);
        let slab = self.mem.slab_of(slot);
        let h = self.free_unchecked(slot);
        let v = Lists {
            free: seq![slab],
            full: w.full,
            slots: w.slots.insert(slab, seq![slot]),
        };
        assert(self.mem.is_list(slab, Some(slot), seq![slot])) by {
            reveal(Memory::is_list);
        }
        assert(h.mem.is_chain(h.current(), v.free)) by {
            reveal(Memory::is_chain);
        }
        v
    }
}

impl<T> Heap<T> {
    /// Writing to a slot that is in no list.
    pub proof fn lemma_write(self, w: Lists, slot: PSlot, cell: Slot<T>)
        requires
            self.has_lists(w),
            self.mem.is_slot(slot),
            !(w.has(self.mem.slab_of(slot)) && w.slots[self.mem.slab_of(slot)].contains(slot)),
        ensures
            (Heap { mem: self.mem.with_cell(slot, cell), ..self }).has_lists(w),
    {
        let h = Heap { mem: self.mem.with_cell(slot, cell), ..self };
        self.mem.lemma_cell_lists(slot, cell);
        self.mem.lemma_cell_frame(slot, cell);
        assert(h.current() == self.current());
        assert(h.mem.is_chain(h.current(), w.free)) by {
            reveal(Memory::is_chain);
        }
        assert(h.mem.is_chain(h.full, w.full)) by {
            reveal(Memory::is_chain);
        }
        assert forall|b: PSlab, start: Option<PSlot>|
            w.has(b) && #[trigger] self.mem.is_list(b, start, w.slots[b]) implies h.mem.is_list(
            b,
            start,
            w.slots[b],
        ) by {
            if w.slots[b].contains(slot) {
                let i = w.slots[b].index_of(slot);
                self.mem.lemma_list_at(b, start, w.slots[b], i);
            }
        }
        self.mem.lemma_chain_start(self.current(), w.free);
        self.mem.lemma_chain_start(self.full, w.full);
        assert forall|b: PSlab| #[trigger] w.free.contains(b) implies h.mem.is_list(
            b,
            h.first_free(b),
            w.slots[b],
        ) by {
            assert(w.has(b));
            assert(h.first_free(b) == self.first_free(b));
        }
        assert forall|b: PSlab| #[trigger] w.full.contains(b) implies h.mem.is_list(
            b,
            h.mem.slabs[b].free,
            w.slots[b],
        ) by {
            assert(w.has(b));
            assert(h.mem.slabs[b].free == self.mem.slabs[b].free);
        }
    }
}

} // verus!
