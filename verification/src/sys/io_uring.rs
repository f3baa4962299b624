//! Rings: queues of requests and answers that are shared with the operating system.

pub mod params;
pub mod queue;
pub mod setup;

use vstd::prelude::*;

use crate::sys::error::{SysError, SysResult};
use crate::sys::io_uring::params::{
    params_with, IoUringSetupFlags, SETUP_NO_SQARRAY, SETUP_SINGLE_ISSUER, SETUP_SQPOLL,
};
use crate::sys::io_uring::queue::{CompletionQueue, SqEntry, SubmissionQueue};
use crate::sys::io_uring::setup::{
    region_of, setup_flags, IoUringOptions, RingAction, RingCleanup, RingParts, RingSetup,
};
use crate::sys::mman::Mmap;
use crate::sys::numbers::SysNumbers;

verus! {

/// A ring. Its memory and its descriptor are the ring's own.
pub struct IoUring {
    pub sq: SubmissionQueue,
    pub cq: CompletionQueue,
    pub sq_map: Mmap,
    pub sqes_map: Mmap,
    pub cq_map: Option<Mmap>,
    pub ring_fd: i32,
}

impl IoUring {
    /// Begins to set up a ring: says what is to be done first.
    pub fn new(options: IoUringOptions) -> (r: (RingSetup, RingAction))
        ensures
            r.0 == RingSetup::Entering,
            r.1 == (RingAction::Enter {
                entries: options.sq_entries,
                params: params_with(setup_flags()),
            }),
    {
        RingSetup::begin(options)
    }

    /// The ring that a setup has come to. `sqes` is what the mapping of the requests holds.
    pub fn from_parts(parts: RingParts, sqes: Vec<SqEntry>) -> (r: IoUring)
        requires
            sqes@.len() == parts.params.sq_entries,
        ensures
            r.sq.head == parts.pointers.sq_head,
            r.sq.tail == parts.pointers.sq_tail,
            r.sq.flags == parts.pointers.sq_flags,
            r.sq.dropped == parts.pointers.sq_dropped,
            r.sq.mask == parts.words.sq_mask,
            r.sq.entries == parts.words.sq_entries,
            r.sq.sqes_ptr == parts.sqes_map.mapping.addr,
            r.sq.sqes@ == sqes@,
            r.sq.sqpoll == setup_flags().has(SETUP_SQPOLL),
            !r.sq.sqpoll,
            r.sq.sqe_tail == parts.words.sq_tail,
            r.cq == (CompletionQueue {
                head: parts.pointers.cq_head,
                tail: parts.pointers.cq_tail,
                flags: parts.pointers.cq_flags,
                overflow: parts.pointers.cq_overflow,
                mask: parts.words.cq_mask,
                entries: parts.words.cq_entries,
                cqes_ptr: parts.pointers.cq_cqes,
                cqes_len: parts.params.cq_entries as usize,
            }),
            r.sq_map == parts.sq_map,
            r.sqes_map == parts.sqes_map,
            r.cq_map == parts.cq_map,
            r.ring_fd == parts.fd,
    {
        proof {
            law_never_polled();
        }
        let RingParts { fd, params, sq_map, cq_map, sqes_map, pointers, words } = parts;
        let flags: IoUringSetupFlags = IoUringSetupFlags {
            bits: SETUP_SINGLE_ISSUER | SETUP_NO_SQARRAY,
        };
        let sq: SubmissionQueue = SubmissionQueue {
            head: pointers.sq_head,
            tail: pointers.sq_tail,
            flags: pointers.sq_flags,
            dropped: pointers.sq_dropped,
            mask: words.sq_mask,
            entries: words.sq_entries,
            sqes_ptr: sqes_map.as_non_null().addr,
            sqes,
            sqpoll: flags.contains(SETUP_SQPOLL),
            sqe_tail: words.sq_tail,
        };
        let cq: CompletionQueue = CompletionQueue {
            head: pointers.cq_head,
            tail: pointers.cq_tail,
            flags: pointers.cq_flags,
            overflow: pointers.cq_overflow,
            mask: words.cq_mask,
            entries: words.cq_entries,
            cqes_ptr: pointers.cq_cqes,
            cqes_len: params.cq_entries as usize,
        };
        IoUring { sq, cq, sq_map, sqes_map, cq_map, ring_fd: fd }
    }

    /// Claims an entry for a read from a descriptor. `head` is what the operating system has
    /// come to. The entry is set to zero; the descriptor is not in it.
    pub fn prep_read(&mut self, head: u32, _fd: i32, sys: SysNumbers) -> (r: SysResult<usize>)
        requires
            !old(self).sq.is_full(head) ==> old(self).sq.next_place() < old(self).sq.sqes@.len(),
            !old(self).sq.is_full(head) ==> old(self).sq.sqe_tail < u32::MAX,
        ensures
            old(self).sq.is_full(head) ==> {
                &&& r == Err::<usize, SysError>(SysError::Os { code: sys.ebusy })
                &&& *final(self) == *old(self)
            },
            !old(self).sq.is_full(head) ==> {
                &&& r == Ok::<usize, SysError>(old(self).sq.next_place() as usize)
                &&& old(self).sq.taken(final(self).sq)
            },
            r is Err <==> (old(self).sq.sqe_tail - head) % 0x1_0000_0000 >= old(self).sq.entries,
            r matches Ok(place) ==> place == old(self).sq.sqe_tail & old(self).sq.mask,
            r is Ok ==> final(self).sq.sqe_tail == old(self).sq.sqe_tail + 1,
            final(self).cq == old(self).cq,
            final(self).sq_map == old(self).sq_map,
            final(self).sqes_map == old(self).sqes_map,
            final(self).cq_map == old(self).cq_map,
            final(self).ring_fd == old(self).ring_fd,
    {
        match self.sq.get_sqe(head) {
            Some(place) => Ok(place),
            None => Err(SysError::from_errno(sys.ebusy)),
        }
    }

    /// What is to be given back when the ring goes.
    pub fn release(self) -> (r: RingCleanup)
        ensures
            r == (RingCleanup {
                stray: None,
                sqes_map: Some(self.sqes_map.mapping),
                cq_map: region_of(self.cq_map),
                sq_map: Some(self.sq_map.mapping),
                fd: Some(self.ring_fd),
            }),
            self.cq_map matches Some(map) ==> r.cq_map == Some(map.mapping),
            self.cq_map is None ==> r.cq_map is None,
    {
        RingCleanup {
            stray: None,
            sqes_map: Some(self.sqes_map.into_non_null()),
            cq_map: match self.cq_map {
                Some(cq_map) => Some(cq_map.into_non_null()),
                None => None,
            },
            sq_map: Some(self.sq_map.into_non_null()),
            fd: Some(self.ring_fd),
        }
    }
}

/// No ring is set up to be polled by the operating system.
pub proof fn law_never_polled()
    ensures
        !setup_flags().has(SETUP_SQPOLL),
{
    assert((0x1000u32 | 0x10000u32) & 2u32 != 2u32) by (bit_vector);
}

/// Every ring is asked for with two flags, those for a single thread and for no array of
/// indices, and with nothing else.
pub proof fn law_ring_flags()
    ensures
        setup_flags().bits == (1u32 << 12u32) | (1u32 << 16u32),
        params_with(setup_flags()).flags.bits == 0x11000,
{
    assert((1u32 << 12u32) | (1u32 << 16u32) == 0x1000u32 | 0x10000u32) by (bit_vector);
    assert(0x1000u32 | 0x10000u32 == 0x11000u32) by (bit_vector);
}

} // verus!
