//! Setting up a ring, step by step. Each step says what is to be done next, and takes what
//! came of it.

use vstd::arithmetic::div_mod::{lemma_fundamental_div_mod_converse, lemma_small_mod};
use vstd::prelude::*;

use crate::slab::model::Region;
use crate::sys::error::{syscall_error, SysError, SysResult};
use crate::sys::io_uring::params::{
    params_with, IoUringParams, IoUringSetupFlags, FEAT_NODROP, FEAT_SINGLE_MMAP,
    SETUP_NO_SQARRAY, SETUP_SINGLE_ISSUER,
};
use crate::sys::mman::{
    mmap_request, Mmap, MmapFailure, MmapFlags, MmapProtect, MmapRequest, MAP_FAILED,
    MMAP_POPULATE, MMAP_SHARED,
};
use crate::sys::numbers::SysNumbers;

verus! {

pub const OFF_SQ_RING: i64 = 0;

pub const OFF_CQ_RING: i64 = 0x800_0000;

pub const OFF_SQES: i64 = 0x1000_0000;

/// The size of a request, in bytes.
pub const SQE_SIZE: usize = 64;

/// The size of an answer, in bytes.
pub const CQE_SIZE: usize = 16;

/// The size of an entry of the array that comes after the submission ring, in bytes.
pub const ARRAY_ENTRY_SIZE: usize = 4;

#[derive(Debug, Clone, Copy, PartialEq, Eq, Structural)]
pub struct IoUringOptions {
    /// How many requests there is to be room for.
    pub sq_entries: u32,
}

/// How every ring is set up: for a single thread, and without an array of indices.
pub open spec fn setup_flags() -> IoUringSetupFlags {
    IoUringSetupFlags { bits: SETUP_SINGLE_ISSUER | SETUP_NO_SQARRAY }
}

pub open spec fn sq_ring_len(params: IoUringParams) -> int {
    params.sq_off.array + params.sq_entries * ARRAY_ENTRY_SIZE
}

pub open spec fn cq_ring_len(params: IoUringParams) -> int {
    params.cq_off.cqes + params.cq_entries * CQE_SIZE
}

pub open spec fn sqes_len(params: IoUringParams) -> int {
    params.sq_entries * SQE_SIZE
}

/// Whether both rings share a mapping.
pub open spec fn single_mmap(params: IoUringParams) -> bool {
    params.features.has(FEAT_SINGLE_MMAP)
}

/// The sizes to map for the submission ring and for the completion ring. A shared mapping has
/// room for the longer one. Where they are mapped apart, each has the other's length.
pub open spec fn ring_sizes(params: IoUringParams) -> (int, int) {
    let sq = sq_ring_len(params);
    let cq = cq_ring_len(params);
    if single_mmap(params) {
        let single = if sq >= cq {
            sq
        } else {
            cq
        };
        (single, single)
    } else {
        (cq, sq)
    }
}

/// Whether all sizes can be addressed.
pub open spec fn sizes_fit(params: IoUringParams) -> bool {
    &&& sq_ring_len(params) <= usize::MAX
    &&& cq_ring_len(params) <= usize::MAX
    &&& sqes_len(params) <= usize::MAX
}

/// How to map a part of the ring.
pub open spec fn ring_map(size: int, fd: i32, offset: i64, sys: SysNumbers) -> MmapRequest {
    mmap_request(
        size as usize,
        MmapProtect::ReadWrite,
        MmapFlags { bits: MMAP_SHARED | MMAP_POPULATE },
        Some((fd, offset)),
        sys,
    )
}

/// What comes `offset` bytes after an address. Addresses start over from null.
pub open spec fn offset_address(base: usize, offset: u32) -> usize {
    if base + offset <= usize::MAX {
        (base + offset) as usize
    } else {
        (base + offset - usize::MAX - 1) as usize
    }
}

/// Where the parts of both rings are.
#[derive(Debug, Clone, Copy, PartialEq, Eq)]
pub struct RingPointers {
    pub sq_head: usize,
    pub sq_tail: usize,
    pub sq_ring_mask: usize,
    pub sq_ring_entries: usize,
    pub sq_flags: usize,
    pub sq_dropped: usize,
    pub cq_head: usize,
    pub cq_tail: usize,
    pub cq_ring_mask: usize,
    pub cq_ring_entries: usize,
    pub cq_flags: Option<usize>,
    pub cq_overflow: usize,
    pub cq_cqes: usize,
}

/// The parts of rings that are mapped at `sq` and `cq`.
pub open spec fn pointers_at(sq: usize, cq: usize, params: IoUringParams) -> RingPointers {
    RingPointers {
        sq_head: offset_address(sq, params.sq_off.head),
        sq_tail: offset_address(sq, params.sq_off.tail),
        sq_ring_mask: offset_address(sq, params.sq_off.ring_mask),
        sq_ring_entries: offset_address(sq, params.sq_off.ring_entries),
        sq_flags: offset_address(sq, params.sq_off.flags),
        sq_dropped: offset_address(sq, params.sq_off.dropped),
        cq_head: offset_address(cq, params.cq_off.head),
        cq_tail: offset_address(cq, params.cq_off.tail),
        cq_ring_mask: offset_address(cq, params.cq_off.ring_mask),
        cq_ring_entries: offset_address(cq, params.cq_off.ring_entries),
        cq_flags: if params.cq_off.flags != 0 {
            Some(offset_address(cq, params.cq_off.flags))
        } else {
            None
        },
        cq_overflow: offset_address(cq, params.cq_off.overflow),
        cq_cqes: offset_address(cq, params.cq_off.cqes),
    }
}

impl RingPointers {
    /// Whether no part is at null.
    pub open spec fn non_null(self) -> bool {
        &&& self.sq_head != 0
        &&& self.sq_tail != 0
        &&& self.sq_ring_mask != 0
        &&& self.sq_ring_entries != 0
        &&& self.sq_flags != 0
        &&& self.sq_dropped != 0
        &&& self.cq_head != 0
        &&& self.cq_tail != 0
        &&& self.cq_ring_mask != 0
        &&& self.cq_ring_entries != 0
        &&& self.cq_flags != Some(0usize)
        &&& self.cq_overflow != 0
        &&& self.cq_cqes != 0
    }
}

/// The address `offset` bytes after `base`, unless that is null.
fn part(base: usize, offset: u32, sys: SysNumbers) -> (r: SysResult<usize>)
    ensures
        r == (if offset_address(base, offset) == 0 {
            Err::<usize, SysError>(SysError::Os { code: sys.enomem })
        } else {
            Ok(offset_address(base, offset))
        }),
{
    let address: usize = base.wrapping_add(offset as usize);
    if address == 0 {
        Err(SysError::from_errno(sys.enomem))
    } else {
        Ok(address)
    }
}

/// Finds the parts of rings that are mapped at `sq` and `cq`.
pub fn ring_pointers(sq: usize, cq: usize, params: &IoUringParams, sys: SysNumbers) -> (r: SysResult<
    RingPointers,
>)
    ensures
        r == (if pointers_at(sq, cq, *params).non_null() {
            Ok::<RingPointers, SysError>(pointers_at(sq, cq, *params))
        } else {
            Err(SysError::Os { code: sys.enomem })
        }),
{
    let sq_head: usize = part(sq, params.sq_off.head, sys)?;
    let sq_tail: usize = part(sq, params.sq_off.tail, sys)?;
    let sq_ring_mask: usize = part(sq, params.sq_off.ring_mask, sys)?;
    let sq_ring_entries: usize = part(sq, params.sq_off.ring_entries, sys)?;
    let sq_flags: usize = part(sq, params.sq_off.flags, sys)?;
    let sq_dropped: usize = part(sq, params.sq_off.dropped, sys)?;
    let cq_head: usize = part(cq, params.cq_off.head, sys)?;
    let cq_tail: usize = part(cq, params.cq_off.tail, sys)?;
    let cq_ring_mask: usize = part(cq, params.cq_off.ring_mask, sys)?;
    let cq_ring_entries: usize = part(cq, params.cq_off.ring_entries, sys)?;
    let cq_flags: Option<usize> = if params.cq_off.flags != 0 {
        Some(part(cq, params.cq_off.flags, sys)?)
    } else {
        None
    };
    let cq_overflow: usize = part(cq, params.cq_off.overflow, sys)?;
    let cq_cqes: usize = part(cq, params.cq_off.cqes, sys)?;
    Ok(
        RingPointers {
            sq_head,
            sq_tail,
            sq_ring_mask,
            sq_ring_entries,
            sq_flags,
            sq_dropped,
            cq_head,
            cq_tail,
            cq_ring_mask,
            cq_ring_entries,
            cq_flags,
            cq_overflow,
            cq_cqes,
        },
    )
}

/// What a request for a ring came to: the ring's descriptor. `ret` is what the system call
/// returned.
pub fn io_uring_setup(ret: i64) -> (r: SysResult<i32>)
    ensures
        r == (if 0 <= ret <= i32::MAX {
            Ok::<i32, SysError>(ret as i32)
        } else {
            Err(syscall_error(ret))
        }),
{
    if ret >= 0 && ret <= i32::MAX as i64 {
        Ok(ret as i32)
    } else {
        Err(SysError::from_syscall_error(ret))
    }
}

/// What is read from the rings once they are mapped.
#[derive(Debug, Clone, Copy, PartialEq, Eq, Structural)]
pub struct RingWords {
    pub sq_mask: u32,
    pub sq_entries: u32,
    pub sq_tail: u32,
    pub cq_mask: u32,
    pub cq_entries: u32,
}

/// All that a ring is made of.
#[derive(PartialEq, Eq)]
pub struct RingParts {
    pub fd: i32,
    pub params: IoUringParams,
    pub sq_map: Mmap,
    pub cq_map: Option<Mmap>,
    pub sqes_map: Mmap,
    pub pointers: RingPointers,
    pub words: RingWords,
}

/// What is to be given back: memory to unmap, and a descriptor to close.
#[derive(Debug, Clone, Copy, PartialEq, Eq)]
pub struct RingCleanup {
    /// What a failed request has mapped at null.
    pub stray: Option<Region>,
    pub sqes_map: Option<Region>,
    pub cq_map: Option<Region>,
    pub sq_map: Option<Region>,
    pub fd: Option<i32>,
}

/// How far the setup has come.
#[derive(PartialEq, Eq)]
pub enum RingSetup {
    Entering,
    MappingSq { fd: i32, params: IoUringParams },
    MappingCq { fd: i32, params: IoUringParams, sq_map: Mmap },
    MappingSqes { fd: i32, params: IoUringParams, sq_map: Mmap, cq_map: Option<Mmap> },
    Loading {
        fd: i32,
        params: IoUringParams,
        sq_map: Mmap,
        cq_map: Option<Mmap>,
        sqes_map: Mmap,
        pointers: RingPointers,
    },
    Over,
}

/// What came of the last action.
#[derive(Clone, Copy, PartialEq, Eq)]
pub enum RingEvent {
    /// The system call returned `ret`, and left `params` behind.
    Entered { ret: i64, params: IoUringParams },
    /// Mapping memory returned `addr`. `errno` is the error number at that time.
    Mapped { addr: usize, errno: i32 },
    Loaded { words: RingWords },
}

/// What is to be done next.
#[derive(PartialEq, Eq)]
pub enum RingAction {
    /// Ask the operating system for a ring.
    Enter { entries: u32, params: IoUringParams },
    MapMemory { request: MmapRequest },
    /// Read the masks and sizes of both rings, and the tail of the submission ring.
    Load { pointers: RingPointers },
    /// The ring is complete.
    Finish { parts: RingParts },
    Fail { error: SysError, cleanup: RingCleanup },
}

/// The memory of a mapping that there need not be.
pub open spec fn region_of(map: Option<Mmap>) -> Option<Region> {
    match map {
        Some(map) => Some(map.mapping),
        None => None,
    }
}

/// What mapping `size` bytes came to, if it returned `ret`.
pub open spec fn mapped(size: usize, ret: usize, errno: i32, sys: SysNumbers) -> Result<
    Mmap,
    MmapFailure,
> {
    if ret == MAP_FAILED {
        Err(MmapFailure { error: SysError::Os { code: errno }, unmap: None })
    } else if ret == 0 {
        Err(
            MmapFailure {
                error: SysError::Os { code: sys.erange },
                unmap: Some(Region { addr: 0, len: size }),
            },
        )
    } else {
        Ok(Mmap { mapping: Region { addr: ret, len: size } })
    }
}

impl RingSetup {
    /// What would have to be given back if the setup failed here.
    pub open spec fn held(self) -> RingCleanup {
        match self {
            RingSetup::Entering | RingSetup::Over => RingCleanup {
                stray: None,
                sqes_map: None,
                cq_map: None,
                sq_map: None,
                fd: None,
            },
            RingSetup::MappingSq { fd, .. } => RingCleanup {
                stray: None,
                sqes_map: None,
                cq_map: None,
                sq_map: None,
                fd: Some(fd),
            },
            RingSetup::MappingCq { fd, sq_map, .. } => RingCleanup {
                stray: None,
                sqes_map: None,
                cq_map: None,
                sq_map: Some(sq_map.mapping),
                fd: Some(fd),
            },
            RingSetup::MappingSqes { fd, sq_map, cq_map, .. } => RingCleanup {
                stray: None,
                sqes_map: None,
                cq_map: region_of(cq_map),
                sq_map: Some(sq_map.mapping),
                fd: Some(fd),
            },
            RingSetup::Loading { fd, sq_map, cq_map, sqes_map, .. } => RingCleanup {
                stray: None,
                sqes_map: Some(sqes_map.mapping),
                cq_map: region_of(cq_map),
                sq_map: Some(sq_map.mapping),
                fd: Some(fd),
            },
        }
    }

    /// How many bytes are being mapped.
    pub open spec fn map_size(self) -> int {
        match self {
            RingSetup::MappingSq { params, .. } => ring_sizes(params).0,
            RingSetup::MappingCq { params, .. } => ring_sizes(params).1,
            RingSetup::MappingSqes { params, .. } => sqes_len(params),
            _ => 0,
        }
    }

    /// What the sizes in the parameters have to keep to.
    pub open spec fn wf(self) -> bool {
        match self {
            RingSetup::MappingSq { params, .. } => sizes_fit(params),
            RingSetup::MappingCq { params, sq_map, .. } => sizes_fit(params) && sq_map.mapping.len
                > 0,
            RingSetup::MappingSqes { params, sq_map, cq_map, .. } => {
                &&& sizes_fit(params)
                &&& sq_map.mapping.len > 0
                &&& cq_map is Some ==> cq_map->0.mapping.len > 0
            },
            _ => true,
        }
    }

    /// Whether this is what the last action can come to: the sizes of a ring can be addressed,
    /// and nothing is mapped that has no bytes.
    pub open spec fn expects(self, event: RingEvent) -> bool {
        match event {
            RingEvent::Entered { ret, params } => {
                &&& self is Entering
                &&& 0 <= ret <= i32::MAX && params.features.has(FEAT_NODROP) ==> sizes_fit(params)
            },
            RingEvent::Mapped { addr, .. } => {
                &&& self is MappingSq || self is MappingCq || self is MappingSqes
                &&& addr == MAP_FAILED || addr == 0 || self.map_size() > 0
            },
            RingEvent::Loaded { .. } => self is Loading,
        }
    }

    pub open spec fn failed(self, error: SysError) -> (RingSetup, RingAction) {
        (RingSetup::Over, RingAction::Fail { error, cleanup: self.held() })
    }

    pub open spec fn map_failed(self, failure: MmapFailure) -> (RingSetup, RingAction) {
        (
            RingSetup::Over,
            RingAction::Fail {
                error: failure.error,
                cleanup: RingCleanup { stray: failure.unmap, ..self.held() },
            },
        )
    }

    /// The next step. First a ring is asked for: the system must not drop answers. Then the
    /// submission ring is mapped, the completion ring where it has a mapping of its own, and
    /// the requests. Then the rings are read.
    pub open spec fn stepped(self, event: RingEvent, sys: SysNumbers) -> (RingSetup, RingAction) {
        match (self, event) {
            (RingSetup::Entering, RingEvent::Entered { ret, params }) => {
                if !(0 <= ret <= i32::MAX) {
                    self.failed(syscall_error(ret))
                } else if !params.features.has(FEAT_NODROP) {
                    (RingSetup::MappingSq { fd: ret as i32, params }).failed(
                        SysError::Os { code: sys.enotsup },
                    )
                } else {
                    (
                        RingSetup::MappingSq { fd: ret as i32, params },
                        RingAction::MapMemory {
                            request: ring_map(ring_sizes(params).0, ret as i32, OFF_SQ_RING, sys),
                        },
                    )
                }
            },
            (RingSetup::MappingSq { fd, params }, RingEvent::Mapped { addr, errno }) => {
                match mapped(self.map_size() as usize, addr, errno, sys) {
                    Err(failure) => self.map_failed(failure),
                    Ok(sq_map) => if single_mmap(params) {
                        (
                            RingSetup::MappingSqes { fd, params, sq_map, cq_map: None },
                            RingAction::MapMemory { request: ring_map(sqes_len(params), fd, OFF_SQES, sys) },
                        )
                    } else {
                        (
                            RingSetup::MappingCq { fd, params, sq_map },
                            RingAction::MapMemory {
                                request: ring_map(ring_sizes(params).1, fd, OFF_CQ_RING, sys),
                            },
                        )
                    },
                }
            },
            (RingSetup::MappingCq { fd, params, sq_map }, RingEvent::Mapped { addr, errno }) => {
                match mapped(self.map_size() as usize, addr, errno, sys) {
                    Err(failure) => self.map_failed(failure),
                    Ok(cq_map) => (
                        RingSetup::MappingSqes { fd, params, sq_map, cq_map: Some(cq_map) },
                        RingAction::MapMemory { request: ring_map(sqes_len(params), fd, OFF_SQES, sys) },
                    ),
                }
            },
            (
                RingSetup::MappingSqes { fd, params, sq_map, cq_map },
                RingEvent::Mapped { addr, errno },
            ) => {
                match mapped(self.map_size() as usize, addr, errno, sys) {
                    Err(failure) => self.map_failed(failure),
                    Ok(sqes_map) => {
                        let sq = sq_map.mapping.addr;
                        let cq = match cq_map {
                            Some(cq_map) => cq_map.mapping.addr,
                            None => sq,
                        };
                        let pointers = pointers_at(sq, cq, params);
                        let next = RingSetup::Loading {
                            fd,
                            params,
                            sq_map,
                            cq_map,
                            sqes_map,
                            pointers,
                        };
                        if pointers.non_null() {
                            (next, RingAction::Load { pointers })
                        } else {
                            next.failed(SysError::Os { code: sys.enomem })
                        }
                    },
                }
            },
            (
                RingSetup::Loading { fd, params, sq_map, cq_map, sqes_map, pointers },
                RingEvent::Loaded { words },
            ) => (
                RingSetup::Over,
                RingAction::Finish {
                    parts: RingParts { fd, params, sq_map, cq_map, sqes_map, pointers, words },
                },
            ),
            _ => arbitrary(),
        }
    }
}

/// The memory of a mapping that there need not be.
fn region(map: &Option<Mmap>) -> (r: Option<Region>)
    ensures
        r == region_of(*map),
{
    match map {
        Some(map) => Some(map.as_non_null()),
        None => None,
    }
}

/// Asks to map a part of the ring.
fn map_ring(size: usize, fd: i32, offset: i64, sys: SysNumbers) -> (r: RingAction)
    ensures
        r == (RingAction::MapMemory { request: ring_map(size as int, fd, offset, sys) }),
{
    RingAction::MapMemory {
        request: Mmap::new_options(
            size,
            MmapProtect::ReadWrite,
            Some(MmapFlags { bits: MMAP_SHARED | MMAP_POPULATE }),
            Some((fd, offset)),
            sys,
        ),
    }
}

/// The sizes to map for both rings.
fn map_sizes(params: &IoUringParams) -> (r: (usize, usize))
    requires
        sizes_fit(*params),
    ensures
        r.0 == ring_sizes(*params).0,
        r.1 == ring_sizes(*params).1,
{
    let sq_size: usize = params.sq_off.array as usize + params.sq_entries as usize
        * ARRAY_ENTRY_SIZE;
    let cq_size: usize = params.cq_off.cqes as usize + params.cq_entries as usize * CQE_SIZE;
    if params.features.contains(FEAT_SINGLE_MMAP) {
        let single: usize = if sq_size >= cq_size {
            sq_size
        } else {
            cq_size
        };
        (single, single)
    } else {
        (cq_size, sq_size)
    }
}

impl RingSetup {
    /// The first step.
    pub fn begin(options: IoUringOptions) -> (r: (RingSetup, RingAction))
        ensures
            r.0 == RingSetup::Entering,
            r.1 == (RingAction::Enter {
                entries: options.sq_entries,
                params: params_with(setup_flags()),
            }),
    {
        let flags: IoUringSetupFlags = IoUringSetupFlags {
            bits: SETUP_SINGLE_ISSUER | SETUP_NO_SQARRAY,
        };
        (
            RingSetup::Entering,
            RingAction::Enter {
                entries: options.sq_entries,
                params: IoUringParams::with_flags(flags),
            },
        )
    }

    /// Gives up, with what is to be given back.
    fn fail(self, error: SysError, stray: Option<Region>) -> (r: (RingSetup, RingAction))
        ensures
            r == self.map_failed(MmapFailure { error, unmap: stray }),
    {
        let cleanup: RingCleanup = match &self {
            RingSetup::Entering | RingSetup::Over => RingCleanup {
                stray,
                sqes_map: None,
                cq_map: None,
                sq_map: None,
                fd: None,
            },
            RingSetup::MappingSq { fd, .. } => RingCleanup {
                stray,
                sqes_map: None,
                cq_map: None,
                sq_map: None,
                fd: Some(*fd),
            },
            RingSetup::MappingCq { fd, sq_map, .. } => RingCleanup {
                stray,
                sqes_map: None,
                cq_map: None,
                sq_map: Some(sq_map.as_non_null()),
                fd: Some(*fd),
            },
            RingSetup::MappingSqes { fd, sq_map, cq_map, .. } => RingCleanup {
                stray,
                sqes_map: None,
                cq_map: region(cq_map),
                sq_map: Some(sq_map.as_non_null()),
                fd: Some(*fd),
            },
            RingSetup::Loading { fd, sq_map, cq_map, sqes_map, .. } => RingCleanup {
                stray,
                sqes_map: Some(sqes_map.as_non_null()),
                cq_map: region(cq_map),
                sq_map: Some(sq_map.as_non_null()),
                fd: Some(*fd),
            },
        };
        (RingSetup::Over, RingAction::Fail { error, cleanup })
    }

    /// Takes what came of the last action, and says what is to be done next.
    pub fn step(self, event: RingEvent, sys: SysNumbers) -> (r: (RingSetup, RingAction))
        requires
            self.wf(),
            self.expects(event),
        ensures
            r == self.stepped(event, sys),
            r.0.wf(),
    {
        match (self, event) {
            (RingSetup::Entering, RingEvent::Entered { ret, params }) => {
                let fd: i32 = match io_uring_setup(ret) {
                    Ok(fd) => fd,
                    Err(error) => {
                        return RingSetup::Entering.fail(error, None);
                    },
                };
                let next = RingSetup::MappingSq { fd, params };
                if !params.features.contains(FEAT_NODROP) {
                    return next.fail(SysError::from_errno(sys.enotsup), None);
                }
                let (sq_size, _): (usize, usize) = map_sizes(&params);
                (next, map_ring(sq_size, fd, OFF_SQ_RING, sys))
            },
            (RingSetup::MappingSq { fd, params }, RingEvent::Mapped { addr, errno }) => {
                let (sq_size, cq_size): (usize, usize) = map_sizes(&params);
                let sqes_size: usize = params.sq_entries as usize * SQE_SIZE;
                match Mmap::from_reply(sq_size, addr, errno, sys) {
                    Err(failure) => (RingSetup::MappingSq { fd, params }).fail(
                        failure.error,
                        failure.unmap,
                    ),
                    Ok(sq_map) => {
                        if params.features.contains(FEAT_SINGLE_MMAP) {
                            (
                                RingSetup::MappingSqes { fd, params, sq_map, cq_map: None },
                                map_ring(sqes_size, fd, OFF_SQES, sys),
                            )
                        } else {
                            (
                                RingSetup::MappingCq { fd, params, sq_map },
                                map_ring(cq_size, fd, OFF_CQ_RING, sys),
                            )
                        }
                    },
                }
            },
            (RingSetup::MappingCq { fd, params, sq_map }, RingEvent::Mapped { addr, errno }) => {
                let (_, cq_size): (usize, usize) = map_sizes(&params);
                let sqes_size: usize = params.sq_entries as usize * SQE_SIZE;
                match Mmap::from_reply(cq_size, addr, errno, sys) {
                    Err(failure) => (RingSetup::MappingCq { fd, params, sq_map }).fail(
                        failure.error,
                        failure.unmap,
                    ),
                    Ok(cq_map) => (
                        RingSetup::MappingSqes { fd, params, sq_map, cq_map: Some(cq_map) },
                        map_ring(sqes_size, fd, OFF_SQES, sys),
                    ),
                }
            },
            (
                RingSetup::MappingSqes { fd, params, sq_map, cq_map },
                RingEvent::Mapped { addr, errno },
            ) => {
                let sqes_size: usize = params.sq_entries as usize * SQE_SIZE;
                match Mmap::from_reply(sqes_size, addr, errno, sys) {
                    Err(failure) => (RingSetup::MappingSqes { fd, params, sq_map, cq_map }).fail(
                        failure.error,
                        failure.unmap,
                    ),
                    Ok(sqes_map) => {
                        let sq: usize = sq_map.as_non_null_ptr();
                        let cq: usize = match &cq_map {
                            Some(cq_map) => cq_map.as_non_null_ptr(),
                            None => sq,
                        };
                        match ring_pointers(sq, cq, &params, sys) {
                            Ok(pointers) => (
                                RingSetup::Loading {
                                    fd,
                                    params,
                                    sq_map,
                                    cq_map,
                                    sqes_map,
                                    pointers,
                                },
                                RingAction::Load { pointers },
                            ),
                            Err(error) => (
                                RingSetup::Over,
                                RingAction::Fail {
                                    error,
                                    cleanup: RingCleanup {
                                        stray: None,
                                        sqes_map: Some(sqes_map.as_non_null()),
                                        cq_map: region(&cq_map),
                                        sq_map: Some(sq_map.as_non_null()),
                                        fd: Some(fd),
                                    },
                                },
                            ),
                        }
                    },
                }
            },
            (
                RingSetup::Loading { fd, params, sq_map, cq_map, sqes_map, pointers },
                RingEvent::Loaded { words },
            ) => (
                RingSetup::Over,
                RingAction::Finish {
                    parts: RingParts { fd, params, sq_map, cq_map, sqes_map, pointers, words },
                },
            ),
            _ => vstd::pervasive::unreached(),
        }
    }
}

/// A setup that fails gives back all that it holds, and one that goes on keeps it, together
/// with what the last action has brought: nothing that was mapped or opened is lost.
pub proof fn law_nothing_lost(setup: RingSetup, event: RingEvent, sys: SysNumbers)
    requires
        setup.wf(),
        setup.expects(event),
    ensures
        ({
            let (next, action) = setup.stepped(event, sys);
            let held = setup.held();
            let kept = match action {
                RingAction::Fail { cleanup, .. } => cleanup,
                RingAction::Finish { parts } => RingCleanup {
                    stray: None,
                    sqes_map: Some(parts.sqes_map.mapping),
                    cq_map: region_of(parts.cq_map),
                    sq_map: Some(parts.sq_map.mapping),
                    fd: Some(parts.fd),
                },
                _ => next.held(),
            };
            &&& held.fd is Some ==> kept.fd == held.fd
            &&& held.sq_map is Some ==> kept.sq_map == held.sq_map
            &&& held.cq_map is Some ==> kept.cq_map == held.cq_map
            &&& held.sqes_map is Some ==> kept.sqes_map == held.sqes_map
            &&& match event {
                RingEvent::Entered { ret, .. } => 0 <= ret <= i32::MAX ==> kept.fd == Some(
                    ret as i32,
                ),
                RingEvent::Mapped { addr, .. } => addr != MAP_FAILED ==> {
                    let region = Some(Region { addr, len: setup.map_size() as usize });
                    if addr == 0 {
                        kept.stray == region
                    } else {
                        &&& setup is MappingSq ==> kept.sq_map == region
                        &&& setup is MappingCq ==> kept.cq_map == region
                        &&& setup is MappingSqes ==> kept.sqes_map == region
                    }
                },
                RingEvent::Loaded { .. } => true,
            }
        }),
{
}

impl RingSetup {
    /// How many steps are left at most.
    pub open spec fn steps_left(self) -> nat {
        match self {
            RingSetup::Entering => 5,
            RingSetup::MappingSq { .. } => 4,
            RingSetup::MappingCq { .. } => 3,
            RingSetup::MappingSqes { .. } => 2,
            RingSetup::Loading { .. } => 1,
            RingSetup::Over => 0,
        }
    }
}

/// Every step comes closer to the end, and the setup is over just when a ring is complete or
/// the setup has failed.
pub proof fn law_setup_ends(setup: RingSetup, event: RingEvent, sys: SysNumbers)
    requires
        setup.wf(),
        setup.expects(event),
    ensures
        setup.stepped(event, sys).0.steps_left() < setup.steps_left(),
        setup.stepped(event, sys).0 is Over <==> (setup.stepped(event, sys).1 is Finish
            || setup.stepped(event, sys).1 is Fail),
{
}

/// Where nothing fails, a ring comes about: with what the operating system said of it, its
/// descriptor, its mappings, and what was read from them.
pub proof fn law_setup_succeeds(
    fd: i32,
    params: IoUringParams,
    sq: usize,
    cq: usize,
    sqes: usize,
    errno: i32,
    words: RingWords,
    sys: SysNumbers,
)
    requires
        fd >= 0,
        params.features.has(FEAT_NODROP),
        sizes_fit(params),
        sq != 0 && sq != MAP_FAILED,
        cq != 0 && cq != MAP_FAILED,
        sqes != 0 && sqes != MAP_FAILED,
        single_mmap(params) ==> cq == sq,
        pointers_at(sq, cq, params).non_null(),
    ensures
        ({
            let entered = RingSetup::Entering.stepped(
                RingEvent::Entered { ret: fd as i64, params },
                sys,
            ).0;
            let sq_mapped = entered.stepped(RingEvent::Mapped { addr: sq, errno }, sys).0;
            let cq_mapped = if single_mmap(params) {
                sq_mapped
            } else {
                sq_mapped.stepped(RingEvent::Mapped { addr: cq, errno }, sys).0
            };
            let sqes_mapped = cq_mapped.stepped(RingEvent::Mapped { addr: sqes, errno }, sys).0;
            sqes_mapped.stepped(RingEvent::Loaded { words }, sys).1 == RingAction::Finish {
                parts: RingParts {
                    fd,
                    params,
                    sq_map: Mmap {
                        mapping: Region { addr: sq, len: ring_sizes(params).0 as usize },
                    },
                    cq_map: if single_mmap(params) {
                        None
                    } else {
                        Some(
                            Mmap {
                                mapping: Region { addr: cq, len: ring_sizes(params).1 as usize },
                            },
                        )
                    },
                    sqes_map: Mmap {
                        mapping: Region { addr: sqes, len: sqes_len(params) as usize },
                    },
                    pointers: pointers_at(sq, cq, params),
                    words,
                },
            }
        }),
{
}

/// Whether a request maps `size` bytes of a ring, at an offset that says which part, for
/// reading and writing, shared, and all of it at once.
pub open spec fn asks_for(
    action: RingAction,
    size: int,
    fd: i32,
    offset: int,
    sys: SysNumbers,
) -> bool {
    action matches RingAction::MapMemory { request } && {
        &&& request.size == size
        &&& request.fd == fd
        &&& request.offset == offset
        &&& request.prot == sys.prot_read | sys.prot_write
        &&& request.flags == sys.map_shared | sys.map_populate
    }
}

proof fn lemma_ring_map(size: int, fd: i32, offset: i64, sys: SysNumbers)
    requires
        0 <= size <= usize::MAX,
    ensures
        asks_for(
            RingAction::MapMemory { request: ring_map(size, fd, offset, sys) },
            size,
            fd,
            offset as int,
            sys,
        ),
{
    assert((1u8 | 2u8) & 1u8 == 1 && (1u8 | 2u8) & 2u8 == 2) by (bit_vector);
    let flags = sys.map_shared | sys.map_populate;
    assert(flags | 0i32 == flags) by (bit_vector);
}

/// Asking for a ring fails with what the system call reports. A ring of a system that drops
/// answers is not supported, and closed again. Otherwise the submission ring is mapped next:
/// if it shares its mapping, with room for the longer of the two rings and no more; if it does
/// not, with as many bytes as the completion ring takes.
pub proof fn law_entering(ret: i64, params: IoUringParams, sys: SysNumbers)
    requires
        sizes_fit(params),
    ensures
        ({
            let (next, action) = RingSetup::Entering.stepped(
                RingEvent::Entered { ret, params },
                sys,
            );
            let sq = params.sq_off.array + 4 * params.sq_entries;
            let cq = params.cq_off.cqes + 16 * params.cq_entries;
            if ret < 0 || ret > i32::MAX {
                &&& next is Over
                &&& action matches RingAction::Fail { error, cleanup } && error == syscall_error(
                    ret,
                ) && cleanup.fd is None && cleanup.sq_map is None && cleanup.cq_map is None
                    && cleanup.sqes_map is None && cleanup.stray is None
            } else if params.features.bits & 2 != 2 {
                &&& next is Over
                &&& action matches RingAction::Fail { error, cleanup } && error == (SysError::Os {
                    code: sys.enotsup,
                }) && cleanup.fd == Some(ret as i32) && cleanup.sq_map is None
                    && cleanup.cq_map is None && cleanup.sqes_map is None && cleanup.stray is None
            } else {
                &&& next == (RingSetup::MappingSq { fd: ret as i32, params })
                &&& exists|size: int|
                    {
                        &&& #[trigger] asks_for(action, size, ret as i32, 0, sys)
                        &&& params.features.bits & 1 == 1 ==> {
                            &&& size >= sq
                            &&& size >= cq
                            &&& size == sq || size == cq
                        }
                        &&& params.features.bits & 1 != 1 ==> size == cq
                    }
            }
        }),
{
    let size = ring_sizes(params).0;
    lemma_ring_map(size, ret as i32, OFF_SQ_RING, sys);
    let action = RingSetup::Entering.stepped(RingEvent::Entered { ret, params }, sys).1;
    if 0 <= ret <= i32::MAX && params.features.bits & 2 == 2 {
        assert(asks_for(action, size, ret as i32, 0, sys));
    }
}

/// With the submission ring mapped, the completion ring is mapped next, with as many bytes as
/// the submission ring takes, unless they share their mapping; then it is the requests, of
/// sixty-four bytes each. The mapping is as long as what was asked for.
pub proof fn law_sq_mapped(
    fd: i32,
    params: IoUringParams,
    addr: usize,
    errno: i32,
    sys: SysNumbers,
)
    requires
        sizes_fit(params),
        addr != 0,
        addr != usize::MAX,
    ensures
        ({
            let (next, action) = (RingSetup::MappingSq { fd, params }).stepped(
                RingEvent::Mapped { addr, errno },
                sys,
            );
            let sq = params.sq_off.array + 4 * params.sq_entries;
            let cq = params.cq_off.cqes + 16 * params.cq_entries;
            if params.features.bits & 1 == 1 {
                &&& asks_for(action, 64 * params.sq_entries, fd, 0x1000_0000, sys)
                &&& next matches RingSetup::MappingSqes { fd: f, params: p, sq_map, cq_map } && {
                    &&& f == fd && p == params && cq_map is None
                    &&& sq_map.mapping.addr == addr
                    &&& sq_map.mapping.len >= sq
                    &&& sq_map.mapping.len >= cq
                    &&& sq_map.mapping.len == sq || sq_map.mapping.len == cq
                }
            } else {
                &&& asks_for(action, sq, fd, 0x800_0000, sys)
                &&& next matches RingSetup::MappingCq { fd: f, params: p, sq_map } && {
                    &&& f == fd && p == params
                    &&& sq_map.mapping.addr == addr
                    &&& sq_map.mapping.len == cq
                }
            }
        }),
{
    lemma_ring_map(sqes_len(params), fd, OFF_SQES, sys);
    lemma_ring_map(ring_sizes(params).1, fd, OFF_CQ_RING, sys);
}

/// With the completion ring mapped, the requests are mapped next.
pub proof fn law_cq_mapped(
    fd: i32,
    params: IoUringParams,
    sq_map: Mmap,
    addr: usize,
    errno: i32,
    sys: SysNumbers,
)
    requires
        sizes_fit(params),
        params.features.bits & 1 != 1,
        addr != 0,
        addr != usize::MAX,
    ensures
        ({
            let (next, action) = (RingSetup::MappingCq { fd, params, sq_map }).stepped(
                RingEvent::Mapped { addr, errno },
                sys,
            );
            &&& asks_for(action, 64 * params.sq_entries, fd, 0x1000_0000, sys)
            &&& next matches RingSetup::MappingSqes { fd: f, params: p, sq_map: s, cq_map } && {
                &&& f == fd && p == params && s == sq_map
                &&& cq_map matches Some(cq_map) && {
                    &&& cq_map.mapping.addr == addr
                    &&& cq_map.mapping.len == params.sq_off.array + 4 * params.sq_entries
                }
            }
        }),
{
    lemma_ring_map(sqes_len(params), fd, OFF_SQES, sys);
}

/// With everything mapped, the rings are read, unless a part of them would be at null. The
/// parts of the completion ring are in its own mapping, or in that of the submission ring.
pub proof fn law_sqes_mapped(
    fd: i32,
    params: IoUringParams,
    sq_map: Mmap,
    cq_map: Option<Mmap>,
    addr: usize,
    errno: i32,
    sys: SysNumbers,
)
    requires
        sizes_fit(params),
        addr != 0,
        addr != usize::MAX,
    ensures
        ({
            let (next, action) = (RingSetup::MappingSqes { fd, params, sq_map, cq_map }).stepped(
                RingEvent::Mapped { addr, errno },
                sys,
            );
            let cq = match cq_map {
                Some(map) => map.mapping.addr,
                None => sq_map.mapping.addr,
            };
            let pointers = pointers_at(sq_map.mapping.addr, cq, params);
            let sqes = Region { addr, len: (64 * params.sq_entries) as usize };
            if pointers.non_null() {
                &&& action == (RingAction::Load { pointers })
                &&& next == (RingSetup::Loading {
                    fd,
                    params,
                    sq_map,
                    cq_map,
                    sqes_map: Mmap { mapping: sqes },
                    pointers,
                })
            } else {
                &&& next is Over
                &&& action matches RingAction::Fail { error, cleanup } && {
                    &&& error == (SysError::Os { code: sys.enomem })
                    &&& cleanup.fd == Some(fd)
                    &&& cleanup.sq_map == Some(sq_map.mapping)
                    &&& cq_map matches Some(map) ==> cleanup.cq_map == Some(map.mapping)
                    &&& cq_map is None ==> cleanup.cq_map is None
                    &&& cleanup.sqes_map == Some(sqes)
                    &&& cleanup.stray is None
                }
            }
        }),
{
}

/// What was read completes the ring. Nothing that was set up on the way is changed.
pub proof fn law_loaded(
    fd: i32,
    params: IoUringParams,
    sq_map: Mmap,
    cq_map: Option<Mmap>,
    sqes_map: Mmap,
    pointers: RingPointers,
    words: RingWords,
    sys: SysNumbers,
)
    ensures
        ({
            let (next, action) = (RingSetup::Loading {
                fd,
                params,
                sq_map,
                cq_map,
                sqes_map,
                pointers,
            }).stepped(RingEvent::Loaded { words }, sys);
            &&& next is Over
            &&& action matches RingAction::Finish { parts } && {
                &&& parts.fd == fd && parts.params == params && parts.sq_map == sq_map
                &&& parts.cq_map == cq_map && parts.sqes_map == sqes_map
                &&& parts.pointers == pointers && parts.words == words
            }
        }),
{
}

/// A mapping that fails ends the setup with the error of the system. Null is no address: what
/// is mapped there is out of range, and to be unmapped. What the setup holds goes with it.
pub proof fn law_mapping_fails(setup: RingSetup, addr: usize, errno: i32, sys: SysNumbers)
    requires
        setup.wf(),
        setup is MappingSq || setup is MappingCq || setup is MappingSqes,
        addr == 0 || addr == usize::MAX,
    ensures
        ({
            let (next, action) = setup.stepped(RingEvent::Mapped { addr, errno }, sys);
            &&& next is Over
            &&& action matches RingAction::Fail { error, cleanup } && {
                &&& addr == usize::MAX ==> error == (SysError::Os { code: errno })
                &&& addr == usize::MAX ==> cleanup.stray is None
                &&& addr == 0 ==> error == (SysError::Os { code: sys.erange })
                &&& addr == 0 ==> cleanup.stray is Some && cleanup.stray->0.addr == 0
                    && cleanup.stray->0.len == setup.map_size()
                &&& cleanup.sqes_map is None
                &&& setup matches RingSetup::MappingSq { fd, .. } ==> cleanup.fd == Some(fd)
                    && cleanup.sq_map is None && cleanup.cq_map is None
                &&& setup matches RingSetup::MappingCq { fd, sq_map, .. } ==> cleanup.fd == Some(fd)
                    && cleanup.sq_map == Some(sq_map.mapping) && cleanup.cq_map is None
                &&& setup matches RingSetup::MappingSqes { fd, sq_map, cq_map, .. } ==> cleanup.fd
                    == Some(fd) && cleanup.sq_map == Some(sq_map.mapping) && (
                match cq_map {
                    Some(map) => cleanup.cq_map == Some(map.mapping),
                    None => cleanup.cq_map is None,
                })
            }
        }),
{
}

/// The last part of a ring that shares its mapping ends inside that mapping: the array behind
/// the submission ring, and the last answer.
pub proof fn law_room_for_both(
    fd: i32,
    params: IoUringParams,
    addr: usize,
    errno: i32,
    sys: SysNumbers,
)
    requires
        sizes_fit(params),
        params.features.bits & 1 == 1,
        addr != 0,
        addr != usize::MAX,
        addr + ring_sizes(params).0 <= usize::MAX,
    ensures
        ({
            let next = (RingSetup::MappingSq { fd, params }).stepped(
                RingEvent::Mapped { addr, errno },
                sys,
            ).0;
            let end = next->MappingSqes_sq_map.mapping.addr + next->MappingSqes_sq_map.mapping.len;
            let pointers = pointers_at(addr, addr, params);
            &&& addr + params.sq_off.array + 4 * params.sq_entries <= end
            &&& pointers.cq_cqes + 16 * params.cq_entries <= end
        }),
{
}

/// A part of a ring is as far behind the start of its ring's mapping as the system said.
/// Addresses start over from null. The flags of the completion ring are missing if the system
/// did not say where they are.
pub proof fn law_parts(sq: usize, cq: usize, params: IoUringParams)
    ensures
        ({
            let p = pointers_at(sq, cq, params);
            let s = params.sq_off;
            let c = params.cq_off;
            let size = usize::MAX + 1;
            &&& p.sq_head == (sq + s.head) % size
            &&& p.sq_tail == (sq + s.tail) % size
            &&& p.sq_ring_mask == (sq + s.ring_mask) % size
            &&& p.sq_ring_entries == (sq + s.ring_entries) % size
            &&& p.sq_flags == (sq + s.flags) % size
            &&& p.sq_dropped == (sq + s.dropped) % size
            &&& p.cq_head == (cq + c.head) % size
            &&& p.cq_tail == (cq + c.tail) % size
            &&& p.cq_ring_mask == (cq + c.ring_mask) % size
            &&& p.cq_ring_entries == (cq + c.ring_entries) % size
            &&& p.cq_overflow == (cq + c.overflow) % size
            &&& p.cq_cqes == (cq + c.cqes) % size
            &&& c.flags == 0 <==> p.cq_flags is None
            &&& p.cq_flags matches Some(flags) ==> flags == (cq + c.flags) % size
            &&& !p.non_null() <==> p.sq_head == 0 || p.sq_tail == 0 || p.sq_ring_mask == 0
                || p.sq_ring_entries == 0 || p.sq_flags == 0 || p.sq_dropped == 0 || p.cq_head == 0
                || p.cq_tail == 0 || p.cq_ring_mask == 0 || p.cq_ring_entries == 0 || p.cq_flags
                == Some(0usize) || p.cq_overflow == 0 || p.cq_cqes == 0
        }),
{
    lemma_offset(sq, params.sq_off.head);
    lemma_offset(sq, params.sq_off.tail);
    lemma_offset(sq, params.sq_off.ring_mask);
    lemma_offset(sq, params.sq_off.ring_entries);
    lemma_offset(sq, params.sq_off.flags);
    lemma_offset(sq, params.sq_off.dropped);
    lemma_offset(cq, params.cq_off.head);
    lemma_offset(cq, params.cq_off.tail);
    lemma_offset(cq, params.cq_off.ring_mask);
    lemma_offset(cq, params.cq_off.ring_entries);
    lemma_offset(cq, params.cq_off.flags);
    lemma_offset(cq, params.cq_off.overflow);
    lemma_offset(cq, params.cq_off.cqes);
}

proof fn lemma_offset(base: usize, offset: u32)
    ensures
        offset_address(base, offset) == (base + offset) % (usize::MAX + 1),
{
    let size = usize::MAX + 1;
    if base + offset <= usize::MAX {
        lemma_small_mod((base + offset) as nat, size as nat);
    } else {
        lemma_fundamental_div_mod_converse(base + offset, size, 1, base + offset - size);
    }
}

/// What a setup waits for is the outcome of its last action, whatever that is, as long as the
/// sizes of the ring can be addressed and nothing is mapped that has no bytes.
pub proof fn law_expected(
    ret: i64,
    params: IoUringParams,
    setup: RingSetup,
    addr: usize,
    errno: i32,
    words: RingWords,
)
    requires
        params.sq_off.array + 4 * params.sq_entries <= usize::MAX,
        params.cq_off.cqes + 16 * params.cq_entries <= usize::MAX,
        64 * params.sq_entries <= usize::MAX,
    ensures
        RingSetup::Entering.expects(RingEvent::Entered { ret, params }),
        RingSetup::Entering.wf(),
        setup is MappingSq || setup is MappingCq || setup is MappingSqes ==> {
            &&& setup.expects(RingEvent::Mapped { addr: usize::MAX, errno })
            &&& setup.expects(RingEvent::Mapped { addr: 0, errno })
            &&& setup.map_size() > 0 ==> setup.expects(RingEvent::Mapped { addr, errno })
        },
        setup is Loading ==> setup.expects(RingEvent::Loaded { words }) && setup.wf(),
{
}

/// How many bytes are being mapped while a setup waits for a mapping.
pub proof fn law_map_size(fd: i32, params: IoUringParams, sq_map: Mmap, cq_map: Option<Mmap>)
    ensures
        ({
            let sq = params.sq_off.array + 4 * params.sq_entries;
            let cq = params.cq_off.cqes + 16 * params.cq_entries;
            let shared = params.features.bits & 1 == 1;
            let first = (RingSetup::MappingSq { fd, params }).map_size();
            &&& shared ==> first >= sq && first >= cq && (first == sq || first == cq)
            &&& !shared ==> first == cq
            &&& !shared ==> (RingSetup::MappingCq { fd, params, sq_map }).map_size() == sq
            &&& (RingSetup::MappingSqes { fd, params, sq_map, cq_map }).map_size() == 64
                * params.sq_entries
        }),
{
}

} // verus!
