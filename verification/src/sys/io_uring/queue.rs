//! The submission and completion queues of a ring.

use vstd::arithmetic::div_mod::{lemma_fundamental_div_mod, lemma_fundamental_div_mod_converse};
use vstd::prelude::*;

verus! {

/// A request to the operating system. Fields that share their place with others hold zero
/// where nothing was written.
#[derive(Debug, Clone, Copy, PartialEq, Eq)]
pub struct SqEntry {
    pub opcode: u8,
    pub flags: u8,
    pub ioprio: u16,
    pub fd: i32,
    pub off: u64,
    pub addr: u64,
    pub len: u32,
    pub op_flags: u32,
    pub user_data: u64,
    pub buf: u16,
    pub personality: u16,
    pub file_idx: u32,
    pub fin: (u64, u64),
}

pub open spec fn zero_sqe() -> SqEntry {
    SqEntry {
        opcode: 0,
        flags: 0,
        ioprio: 0,
        fd: 0,
        off: 0,
        addr: 0,
        len: 0,
        op_flags: 0,
        user_data: 0,
        buf: 0,
        personality: 0,
        file_idx: 0,
        fin: (0, 0),
    }
}

impl SqEntry {
    /// Sets every field to zero.
    pub fn zeroize(&mut self)
        ensures
            *final(self) == zero_sqe(),
            final(self).opcode == 0 && final(self).flags == 0 && final(self).ioprio == 0,
            final(self).fd == 0 && final(self).off == 0 && final(self).addr == 0,
            final(self).len == 0 && final(self).op_flags == 0 && final(self).user_data == 0,
            final(self).buf == 0 && final(self).personality == 0 && final(self).file_idx == 0,
            final(self).fin.0 == 0 && final(self).fin.1 == 0,
    {
        self.opcode = 0;
        self.flags = 0;
        self.ioprio = 0;
        self.fd = 0;
        self.off = 0;
        self.addr = 0;
        self.len = 0;
        self.op_flags = 0;
        self.user_data = 0;
        self.buf = 0;
        self.personality = 0;
        self.file_idx = 0;
        self.fin = (0, 0);
    }

    pub fn zeroed() -> (r: SqEntry)
        ensures
            r == zero_sqe(),
    {
        SqEntry {
            opcode: 0,
            flags: 0,
            ioprio: 0,
            fd: 0,
            off: 0,
            addr: 0,
            len: 0,
            op_flags: 0,
            user_data: 0,
            buf: 0,
            personality: 0,
            file_idx: 0,
            fin: (0, 0),
        }
    }
}

/// The answer to a request.
#[derive(Debug, Clone, Copy, PartialEq, Eq, Structural)]
pub struct CqEntry {
    pub user_data: u64,
    pub res: i32,
    pub flags: u32,
}

/// How far a ring counter has come from `from` to `to`. Counters start over from zero.
pub open spec fn counted(from: u32, to: u32) -> int {
    if to >= from {
        to - from
    } else {
        to - from + 0x1_0000_0000
    }
}

/// The queue of requests. The addresses are those of the words that the operating system
/// shares; `sqes` are the requests, which lie at `sqes_ptr`.
#[derive(Debug)]
pub struct SubmissionQueue {
    pub head: usize,
    pub tail: usize,
    pub flags: usize,
    pub dropped: usize,
    pub mask: u32,
    pub entries: u32,
    pub sqes_ptr: usize,
    pub sqes: Vec<SqEntry>,
    pub sqpoll: bool,
    pub sqe_tail: u32,
}

impl SubmissionQueue {
    /// Whether all entries are taken, if the operating system has come as far as `head`.
    pub open spec fn is_full(self, head: u32) -> bool {
        counted(head, self.sqe_tail) >= self.entries
    }

    /// The place of the next entry.
    pub open spec fn next_place(self) -> int {
        (self.sqe_tail & self.mask) as int
    }

    /// Whether `next` is this queue with its next entry taken, and set to zero.
    pub open spec fn taken(self, next: SubmissionQueue) -> bool {
        &&& next.sqes@ == self.sqes@.update(self.next_place(), zero_sqe())
        &&& next.sqe_tail == self.sqe_tail + 1
        &&& next.head == self.head
        &&& next.tail == self.tail
        &&& next.flags == self.flags
        &&& next.dropped == self.dropped
        &&& next.mask == self.mask
        &&& next.entries == self.entries
        &&& next.sqes_ptr == self.sqes_ptr
        &&& next.sqpoll == self.sqpoll
    }

    /// Whether the queue is made as the operating system makes them: its mask is one less than
    /// its size, a power of two, and there is a request for each entry.
    pub open spec fn wf(self) -> bool {
        &&& self.entries == self.mask + 1
        &&& self.mask & ((self.mask + 1) as u32) == 0
        &&& self.entries <= self.sqes@.len()
    }

    /// Takes the next entry, and sets it to zero. `head` is what the operating system has
    /// come to.
    pub fn get_sqe(&mut self, head: u32) -> (r: Option<usize>)
        requires
            !old(self).is_full(head) ==> old(self).next_place() < old(self).sqes@.len(),
            !old(self).is_full(head) ==> old(self).sqe_tail < u32::MAX,
        ensures
            old(self).is_full(head) ==> r is None && *final(self) == *old(self),
            !old(self).is_full(head) ==> {
                &&& r == Some(old(self).next_place() as usize)
                &&& old(self).taken(*final(self))
            },
            r is None <==> (old(self).sqe_tail - head) % 0x1_0000_0000 >= old(self).entries,
            r matches Some(place) ==> {
                &&& place == old(self).sqe_tail & old(self).mask
                &&& final(self).sqe_tail == old(self).sqe_tail + 1
                &&& final(self).sqes@.len() == old(self).sqes@.len()
                &&& forall|i: int|
                    #![trigger old(self).sqes@[i]]
                    0 <= i < old(self).sqes@.len() && i != place ==> final(self).sqes@[i] == old(self).sqes@[i]
            },
    {
        let tail: u32 = self.sqe_tail;
        proof {
            law_counted(head, tail);
        }
        if tail.wrapping_sub(head) >= self.entries {
            return None;
        }
        let place: usize = (tail & self.mask) as usize;
        self.sqe_tail = tail + 1;
        self.sqes[place].zeroize();
        Some(place)
    }
}

/// The queue of answers. The addresses are those of the words that the operating system
/// shares; there need not be any flags.
#[derive(Debug, Clone, Copy, PartialEq, Eq, Structural)]
pub struct CompletionQueue {
    pub head: usize,
    pub tail: usize,
    pub flags: Option<usize>,
    pub overflow: usize,
    pub mask: u32,
    pub entries: u32,
    pub cqes_ptr: usize,
    pub cqes_len: usize,
}

/// In a queue as the operating system makes them, there is always a next entry.
pub proof fn law_place_inside(sq: SubmissionQueue)
    requires
        sq.wf(),
    ensures
        0 <= sq.next_place() < sq.sqes@.len(),
{
    let tail = sq.sqe_tail;
    let mask = sq.mask;
    assert(tail & mask <= mask) by (bit_vector);
}

/// Entries that are taken at the same time lie at different places: counters that are less
/// than a ring apart differ behind the mask, for a ring whose mask is one less than a power
/// of two.
pub proof fn law_entries_apart(tail: u32, ahead: u32, mask: u32)
    requires
        mask & ((mask + 1) as u32) == 0,
        0 < counted(tail, ahead) <= mask,
    ensures
        tail & mask != ahead & mask,
{
    let d = counted(tail, ahead) as u32;
    assert(ahead == (tail + d) as u32) by {
        assert((tail + d) as u32 == (if tail + d >= 0x1_0000_0000 {
            tail + d - 0x1_0000_0000
        } else {
            tail + d
        })) by (bit_vector);
    }
    assert(tail & mask != ((tail + d) as u32) & mask) by (bit_vector)
        requires
            mask & ((mask + 1) as u32) == 0,
            0 < d <= mask,
    ;
}

/// Every entry that is taken leaves one less: as long as the operating system does not move
/// on, a queue hands out as many entries as it has, and then it is full. A queue as the
/// operating system makes them stays one.
pub proof fn law_queue_fills(sq: SubmissionQueue, next: SubmissionQueue, head: u32)
    requires
        sq.wf(),
        !sq.is_full(head),
        sq.taken(next),
    ensures
        next.wf(),
        counted(head, next.sqe_tail) == counted(head, sq.sqe_tail) + 1,
        next.is_full(head) <==> counted(head, sq.sqe_tail) + 1 == sq.entries,
        next.sqes@.len() == sq.sqes@.len(),
{
    law_place_inside(sq);
}

/// A counter that moves on from `from` as far as was counted comes to `to`.
pub proof fn law_counted(from: u32, to: u32)
    ensures
        0 <= counted(from, to) < 0x1_0000_0000,
        (from + counted(from, to)) % 0x1_0000_0000 == to,
        counted(from, to) == (to - from) % 0x1_0000_0000,
{
}

/// A queue is full exactly if its own counter is as far ahead of the operating system's as it
/// has entries.
pub proof fn law_full(sq: SubmissionQueue, head: u32)
    ensures
        sq.is_full(head) <==> (sq.sqe_tail - head) % 0x1_0000_0000 >= sq.entries,
{
    law_counted(head, sq.sqe_tail);
}

/// Masking by one less than a power of two leaves the remainder.
proof fn lemma_mask_remainder(n: u32, mask: u32)
    requires
        mask < u32::MAX,
        mask & ((mask + 1) as u32) == 0,
    ensures
        n & mask == n as int % (mask + 1),
    decreases mask,
{
    if mask == 0 {
        assert(n & 0 == 0) by (bit_vector);
    } else {
        let half = mask / 2;
        let q = n / 2;
        let b = n % 2;
        assert(mask % 2 == 1 && half & ((half + 1) as u32) == 0) by (bit_vector)
            requires
                0 < mask < 0xffff_ffff,
                mask & ((mask + 1) as u32) == 0,
                half == mask / 2,
        ;
        assert(n & mask == 2 * (q & half) + b) by (bit_vector)
            requires
                mask % 2 == 1,
                half == mask / 2,
                q == n / 2,
                b == n % 2,
        ;
        lemma_mask_remainder(q, half);
        let size = half + 1;
        let rest = q as int % size;
        let rounds = q as int / size;
        lemma_fundamental_div_mod(q as int, size);
        assert(n == rounds * (2 * size) + (2 * rest + b)) by (nonlinear_arith)
            requires
                n == 2 * q + b,
                q == size * rounds + rest,
        ;
        lemma_fundamental_div_mod_converse(n as int, 2 * size, rounds, 2 * rest + b);
    }
}

/// Entries are claimed in turn, from the first to the last and then from the first again: the
/// place of the next one is what is left of the counter after whole rounds.
pub proof fn law_places_take_turns(sq: SubmissionQueue)
    requires
        sq.wf(),
    ensures
        sq.next_place() == sq.sqe_tail as int % sq.entries as int,
        sq.next_place() == sq.sqe_tail & sq.mask,
{
    lemma_mask_remainder(sq.sqe_tail, sq.mask);
}

/// Two entries that are claimed while the operating system has passed neither lie at
/// different places.
pub proof fn law_claims_apart(sq: SubmissionQueue, later: SubmissionQueue, head: u32)
    requires
        sq.wf(),
        later.wf(),
        sq.entries == later.entries,
        !sq.is_full(head),
        !later.is_full(head),
        sq.sqe_tail != later.sqe_tail,
    ensures
        sq.next_place() != later.next_place(),
{
    let mask = sq.mask;
    assert(mask == later.mask);
    if counted(head, sq.sqe_tail) < counted(head, later.sqe_tail) {
        assert(0 < counted(sq.sqe_tail, later.sqe_tail) <= mask);
        law_entries_apart(sq.sqe_tail, later.sqe_tail, mask);
    } else {
        assert(0 < counted(later.sqe_tail, sq.sqe_tail) <= mask);
        law_entries_apart(later.sqe_tail, sq.sqe_tail, mask);
    }
    law_places_take_turns(sq);
    law_places_take_turns(later);
}

/// A claim clears the entry it hands out, leaves all other requests as they are, and moves
/// the counter, and nothing else, by one.
pub proof fn law_claim_clears(sq: SubmissionQueue, next: SubmissionQueue, i: int)
    requires
        sq.taken(next),
        0 <= sq.sqe_tail & sq.mask < sq.sqes@.len(),
        0 <= i < sq.sqes@.len(),
    ensures
        next.sqes@.len() == sq.sqes@.len(),
        i != sq.sqe_tail & sq.mask ==> next.sqes@[i] == sq.sqes@[i],
        i == sq.sqe_tail & sq.mask ==> {
            let entry = next.sqes@[i];
            &&& entry.opcode == 0 && entry.flags == 0 && entry.ioprio == 0 && entry.fd == 0
            &&& entry.off == 0 && entry.addr == 0 && entry.len == 0 && entry.op_flags == 0
            &&& entry.user_data == 0 && entry.buf == 0 && entry.personality == 0
            &&& entry.file_idx == 0 && entry.fin.0 == 0 && entry.fin.1 == 0
        },
        next.sqe_tail == sq.sqe_tail + 1,
        next.head == sq.head && next.tail == sq.tail && next.flags == sq.flags,
        next.dropped == sq.dropped && next.mask == sq.mask && next.entries == sq.entries,
        next.sqes_ptr == sq.sqes_ptr && next.sqpoll == sq.sqpoll,
{
}

} // verus!
