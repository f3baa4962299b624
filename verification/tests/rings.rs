use slobster::slab::model::Region;
use slobster::sys::error::SysError;
use slobster::sys::io_uring::params::{
    IoUringFeatures, IoUringParams, IoUringSetupFlags, FEAT_NODROP, FEAT_SINGLE_MMAP,
    SETUP_NO_SQARRAY, SETUP_SINGLE_ISSUER, SETUP_SQPOLL,
};
use slobster::sys::io_uring::queue::SqEntry;
use slobster::sys::io_uring::setup::{
    ring_pointers, IoUringOptions, RingAction, RingCleanup, RingEvent, RingSetup, RingWords,
    OFF_CQ_RING, OFF_SQES, OFF_SQ_RING,
};
use slobster::sys::io_uring::IoUring;
use slobster::sys::mman::{MmapRequest, MAP_FAILED};
use slobster::sys::numbers::SysNumbers;

/// Numbers that no system shares, so that none is taken for another.
const SYS: SysNumbers = SysNumbers {
    prot_none: 0,
    prot_read: 0x1,
    prot_write: 0x2,
    prot_exec: 0x4,
    map_private: 0x2,
    map_shared: 0x3,
    map_anonymous: 0x800,
    map_populate: 0x8000,
    erange: 1034,
    enomem: 1012,
    ebusy: 1016,
    enotsup: 1095,
};

const SQ: usize = 0x10000;
const CQ: usize = 0x20000;
const SQES: usize = 0x30000;

fn params(features: u32) -> IoUringParams {
    let mut params = IoUringParams::with_flags(IoUringSetupFlags { bits: 0 });
    params.features = IoUringFeatures { bits: features };
    params.sq_entries = 8;
    params.cq_entries = 16;
    params.sq_off.head = 0;
    params.sq_off.tail = 4;
    params.sq_off.ring_mask = 16;
    params.sq_off.ring_entries = 24;
    params.sq_off.flags = 36;
    params.sq_off.dropped = 32;
    params.sq_off.array = 320;
    params.cq_off.head = 8;
    params.cq_off.tail = 12;
    params.cq_off.ring_mask = 20;
    params.cq_off.ring_entries = 28;
    params.cq_off.overflow = 44;
    params.cq_off.cqes = 64;
    params.cq_off.flags = 40;
    params
}

fn words() -> RingWords {
    RingWords { sq_mask: 7, sq_entries: 8, sq_tail: 0, cq_mask: 15, cq_entries: 16 }
}

fn entered(features: u32) -> (RingSetup, RingAction) {
    let (setup, _) = IoUring::new(IoUringOptions { sq_entries: 8 });
    setup.step(RingEvent::Entered { ret: 5, params: params(features) }, SYS)
}

fn mapped(setup: RingSetup, addr: usize) -> (RingSetup, RingAction) {
    setup.step(RingEvent::Mapped { addr, errno: 12 }, SYS)
}

fn request(action: RingAction) -> MmapRequest {
    match action {
        RingAction::MapMemory { request } => request,
        _ => panic!("no request"),
    }
}

fn failure(action: RingAction) -> (SysError, RingCleanup) {
    match action {
        RingAction::Fail { error, cleanup } => (error, cleanup),
        _ => panic!("no failure"),
    }
}

fn nothing() -> RingCleanup {
    RingCleanup { stray: None, sqes_map: None, cq_map: None, sq_map: None, fd: None }
}

fn region(addr: usize, len: usize) -> Option<Region> {
    Some(Region { addr, len })
}

/// Requests as a mapping may hold them.
fn mapped_entries() -> Vec<SqEntry> {
    let mut entries = vec![SqEntry::zeroed(); 8];
    entries[5].opcode = 9;
    entries
}

/// A ring whose mappings are shared.
fn ring() -> IoUring {
    let (setup, _) = entered(FEAT_NODROP | FEAT_SINGLE_MMAP);
    let (setup, _) = mapped(setup, SQ);
    let (setup, _) = mapped(setup, SQES);
    match setup.step(RingEvent::Loaded { words: words() }, SYS) {
        (RingSetup::Over, RingAction::Finish { parts }) => IoUring::from_parts(parts, mapped_entries()),
        _ => panic!("no ring"),
    }
}

#[test]
fn setup_begins_with_the_flags() {
    let (setup, action) = IoUring::new(IoUringOptions { sq_entries: 8 });
    assert!(setup == RingSetup::Entering);
    match action {
        RingAction::Enter { entries, params } => {
            assert_eq!(entries, 8);
            assert!(params.flags.contains(SETUP_SINGLE_ISSUER));
            assert!(params.flags.contains(SETUP_NO_SQARRAY));
            assert!(!params.flags.contains(SETUP_SQPOLL));
            assert_eq!(params.flags.bits, 0x11000);
            assert_eq!(params.sq_entries, 0);
        },
        _ => panic!("nothing to enter"),
    }
}

#[test]
fn a_shared_mapping_has_room_for_both_rings() {
    let (setup, action) = entered(FEAT_NODROP | FEAT_SINGLE_MMAP);
    // 320 + 8 * 4 and 64 + 16 * 16.
    assert_eq!(
        request(action),
        MmapRequest { size: 352, prot: 3, flags: 0x8003, fd: 5, offset: OFF_SQ_RING }
    );
    let (setup, action) = mapped(setup, SQ);
    assert_eq!(
        request(action),
        MmapRequest { size: 512, prot: 3, flags: 0x8003, fd: 5, offset: OFF_SQES }
    );
    let (setup, action) = mapped(setup, SQES);
    let pointers = match action {
        RingAction::Load { pointers } => pointers,
        _ => panic!("nothing to load"),
    };
    assert_eq!(pointers.sq_head, SQ);
    assert_eq!(pointers.sq_tail, SQ + 4);
    assert_eq!(pointers.cq_head, SQ + 8);
    assert_eq!(pointers.cq_flags, Some(SQ + 40));
    assert_eq!(pointers.cq_cqes, SQ + 64);
    match setup.step(RingEvent::Loaded { words: words() }, SYS) {
        (RingSetup::Over, RingAction::Finish { parts }) => {
            assert_eq!(parts.fd, 5);
            assert!(parts.cq_map == None);
            assert_eq!(parts.sq_map.mapping, Region { addr: SQ, len: 352 });
            assert_eq!(parts.sqes_map.mapping, Region { addr: SQES, len: 512 });
            assert_eq!(parts.pointers, pointers);
        },
        _ => panic!("no ring"),
    }
}

#[test]
fn mappings_of_their_own_have_swapped_sizes() {
    let (setup, action) = entered(FEAT_NODROP);
    let sq = request(action);
    assert_eq!((sq.size, sq.offset), (320, OFF_SQ_RING));
    let (setup, action) = mapped(setup, SQ);
    let cq = request(action);
    assert_eq!((cq.size, cq.offset), (352, OFF_CQ_RING));
    let (setup, action) = mapped(setup, CQ);
    let sqes = request(action);
    assert_eq!((sqes.size, sqes.offset), (512, OFF_SQES));
    let (_, action) = mapped(setup, SQES);
    match action {
        RingAction::Load { pointers } => {
            assert_eq!(pointers.sq_dropped, SQ + 32);
            assert_eq!(pointers.cq_overflow, CQ + 44);
        },
        _ => panic!("nothing to load"),
    }
}

#[test]
fn a_refused_ring_is_an_error() {
    let (setup, _) = IoUring::new(IoUringOptions { sq_entries: 8 });
    let (setup, action) = setup.step(RingEvent::Entered { ret: -38, params: params(0) }, SYS);
    assert!(setup == RingSetup::Over);
    assert!(failure(action) == (SysError::Os { code: 38 }, nothing()));
}

#[test]
fn descriptors_are_small_numbers() {
    let (setup, _) = IoUring::new(IoUringOptions { sq_entries: 8 });
    let ret = 0x1_0000_0000;
    let (_, action) = setup.step(RingEvent::Entered { ret, params: params(0) }, SYS);
    assert!(failure(action).0 == SysError::Unrecognised { ret });
}

#[test]
fn systems_that_drop_answers_are_not_supported() {
    let (setup, action) = entered(FEAT_SINGLE_MMAP);
    assert!(setup == RingSetup::Over);
    let cleanup = RingCleanup { fd: Some(5), ..nothing() };
    assert!(failure(action) == (SysError::Os { code: SYS.enotsup }, cleanup));
}

#[test]
fn failed_mappings_give_back_what_there_is() {
    let (setup, _) = entered(FEAT_NODROP);
    let (_, action) = mapped(setup, MAP_FAILED);
    let cleanup = RingCleanup { fd: Some(5), ..nothing() };
    assert!(failure(action) == (SysError::Os { code: 12 }, cleanup));

    let (setup, _) = entered(FEAT_NODROP);
    let (setup, _) = mapped(setup, SQ);
    let (_, action) = mapped(setup, 0);
    let cleanup = RingCleanup {
        stray: region(0, 352),
        sq_map: region(SQ, 320),
        fd: Some(5),
        ..nothing()
    };
    assert!(failure(action) == (SysError::Os { code: SYS.erange }, cleanup));

    let (setup, _) = entered(FEAT_NODROP);
    let (setup, _) = mapped(setup, SQ);
    let (setup, _) = mapped(setup, CQ);
    let (setup, action) = mapped(setup, MAP_FAILED);
    let cleanup = RingCleanup {
        cq_map: region(CQ, 352),
        sq_map: region(SQ, 320),
        fd: Some(5),
        ..nothing()
    };
    assert!(setup == RingSetup::Over);
    assert!(failure(action) == (SysError::Os { code: 12 }, cleanup));
}

#[test]
fn parts_at_null_are_out_of_memory() {
    let (setup, _) = entered(FEAT_NODROP | FEAT_SINGLE_MMAP);
    let (setup, _) = mapped(setup, usize::MAX - 3);
    let (_, action) = mapped(setup, SQES);
    let cleanup = RingCleanup {
        sqes_map: region(SQES, 512),
        sq_map: region(usize::MAX - 3, 352),
        fd: Some(5),
        ..nothing()
    };
    assert!(failure(action) == (SysError::Os { code: SYS.enomem }, cleanup));
    assert!(
        ring_pointers(SQ, usize::MAX - 63, &params(0), SYS)
            == Err(SysError::Os { code: SYS.enomem })
    );
}

#[test]
fn rings_need_no_flags_for_answers() {
    let mut params = params(0);
    params.cq_off.flags = 0;
    assert_eq!(ring_pointers(SQ, CQ, &params, SYS).ok().unwrap().cq_flags, None);
}

#[test]
fn rings_are_what_was_set_up() {
    let ring = ring();
    assert_eq!(ring.sq.head, SQ);
    assert_eq!(ring.sq.mask, 7);
    assert_eq!(ring.sq.entries, 8);
    assert_eq!(ring.sq.sqes_ptr, SQES);
    assert_eq!(ring.sq.sqes, mapped_entries());
    assert!(!ring.sq.sqpoll);
    assert_eq!(ring.cq.cqes_ptr, SQ + 64);
    assert_eq!(ring.cq.cqes_len, 16);
    assert_eq!(
        ring.release(),
        RingCleanup {
            stray: None,
            sqes_map: region(SQES, 512),
            cq_map: None,
            sq_map: region(SQ, 352),
            fd: Some(5)
        }
    );
}

#[test]
fn entries_are_claimed_until_the_queue_is_full() {
    let mut ring = ring();
    ring.sq.sqes[3].user_data = 77;
    for i in 0..8 {
        assert!(ring.prep_read(0, 3, SYS) == Ok(i));
    }
    assert_eq!(ring.sq.sqes, vec![SqEntry::zeroed(); 8]);
    assert!(ring.prep_read(0, 3, SYS) == Err(SysError::Os { code: SYS.ebusy }));
    assert_eq!(ring.sq.sqe_tail, 8);
    // The system has taken two of them.
    assert!(ring.prep_read(2, 3, SYS) == Ok(0));
    assert!(ring.prep_read(2, 3, SYS) == Ok(1));
    assert!(ring.prep_read(2, 3, SYS) == Err(SysError::Os { code: SYS.ebusy }));
}

#[test]
fn counters_may_have_started_over() {
    let mut ring = ring();
    ring.sq.sqe_tail = 1;
    // The system is at the last entry before the counter starts over.
    assert_eq!(ring.sq.get_sqe(u32::MAX), Some(1));
    assert_eq!(ring.sq.get_sqe(u32::MAX - 5), None);
}

#[test]
fn clearing_a_request_leaves_nothing() {
    let mut entry = SqEntry::zeroed();
    entry.opcode = 22;
    entry.fd = -1;
    entry.off = 5;
    entry.fin = (1, 2);
    assert_ne!(entry, SqEntry::zeroed());
    entry.zeroize();
    assert_eq!(entry, SqEntry::zeroed());
}
