//! What is passed to the operating system, and back, when a ring is set up.

use vstd::prelude::*;

verus! {

pub const SETUP_IOPOLL: u32 = 0x1;

pub const SETUP_SQPOLL: u32 = 0x2;

pub const SETUP_SQ_AFF: u32 = 0x4;

pub const SETUP_CQSIZE: u32 = 0x8;

pub const SETUP_CLAMP: u32 = 0x10;

pub const SETUP_ATTACH_WQ: u32 = 0x20;

pub const SETUP_R_DISABLED: u32 = 0x40;

pub const SETUP_SUBMIT_ALL: u32 = 0x80;

pub const SETUP_COOP_TASKRUN: u32 = 0x100;

pub const SETUP_TASKRUN_FLAG: u32 = 0x200;

pub const SETUP_SQE128: u32 = 0x400;

pub const SETUP_CQE32: u32 = 0x800;

pub const SETUP_SINGLE_ISSUER: u32 = 0x1000;

pub const SETUP_DEFER_TASKRUN: u32 = 0x2000;

pub const SETUP_NO_MMAP: u32 = 0x4000;

pub const SETUP_REGISTERED_FD_ONLY: u32 = 0x8000;

pub const SETUP_NO_SQARRAY: u32 = 0x10000;

pub const SETUP_HYBRID_IOPOLL: u32 = 0x20000;

pub const SETUP_CQE_MIXED: u32 = 0x40000;

pub const SETUP_SQE_MIXED: u32 = 0x80000;

pub const SETUP_SQ_REWIND: u32 = 0x100000;

pub const FEAT_SINGLE_MMAP: u32 = 0x1;

pub const FEAT_NODROP: u32 = 0x2;

pub const FEAT_SUBMIT_STABLE: u32 = 0x4;

pub const FEAT_RW_CUR_POS: u32 = 0x8;

pub const FEAT_CUR_PERSONALITY: u32 = 0x10;

pub const FEAT_FAST_POLL: u32 = 0x20;

pub const FEAT_POLL_32BITS: u32 = 0x40;

pub const FEAT_SQPOLL_NONFIXED: u32 = 0x80;

pub const FEAT_EXT_ARG: u32 = 0x100;

pub const FEAT_NATIVE_WORKERS: u32 = 0x200;

pub const FEAT_RSRC_TAGS: u32 = 0x400;

pub const FEAT_CQE_SKIP: u32 = 0x800;

pub const FEAT_LINKED_FILE: u32 = 0x1000;

pub const FEAT_REG_REG_RING: u32 = 0x2000;

pub const FEAT_RECVSEND_BUNDLE: u32 = 0x4000;

pub const FEAT_MIN_TIMEOUT: u32 = 0x8000;

pub const FEAT_RW_ATTR: u32 = 0x10000;

pub const FEAT_NO_IOWAIT: u32 = 0x20000;

/// How a ring is to be set up.
#[derive(Clone, Copy, PartialEq, Eq, Structural)]
pub struct IoUringSetupFlags {
    pub bits: u32,
}

impl IoUringSetupFlags {
    pub open spec fn has(self, bits: u32) -> bool {
        self.bits & bits == bits
    }

    pub fn contains(self, bits: u32) -> (r: bool)
        ensures
            r == self.has(bits),
            r <==> self.bits & bits == bits,
    {
        self.bits & bits == bits
    }
}

/// What the operating system's rings can do.
#[derive(Clone, Copy, PartialEq, Eq, Structural)]
pub struct IoUringFeatures {
    pub bits: u32,
}

impl IoUringFeatures {
    pub open spec fn has(self, bits: u32) -> bool {
        self.bits & bits == bits
    }

    pub fn contains(self, bits: u32) -> (r: bool)
        ensures
            r == self.has(bits),
            r <==> self.bits & bits == bits,
    {
        self.bits & bits == bits
    }
}

/// Where the parts of the submission ring lie in its mapping.
#[derive(Debug, Clone, Copy, PartialEq, Eq, Structural)]
pub struct IoRingSqOffsets {
    pub head: u32,
    pub tail: u32,
    pub ring_mask: u32,
    pub ring_entries: u32,
    pub flags: u32,
    pub dropped: u32,
    pub array: u32,
    pub resv1: u32,
    pub user_addr: u64,
}

/// Where the parts of the completion ring lie in its mapping.
#[derive(Debug, Clone, Copy, PartialEq, Eq, Structural)]
pub struct IoRingCqOffsets {
    pub head: u32,
    pub tail: u32,
    pub ring_mask: u32,
    pub ring_entries: u32,
    pub overflow: u32,
    pub cqes: u32,
    pub flags: u32,
    pub resv1: u32,
    pub user_addr: u64,
}

/// The parameters of a ring. The operating system fills in most of them.
#[derive(Clone, Copy, PartialEq, Eq)]
pub struct IoUringParams {
    pub sq_entries: u32,
    pub cq_entries: u32,
    pub flags: IoUringSetupFlags,
    pub sq_thread_cpu: u32,
    pub sq_thread_idle: u32,
    pub features: IoUringFeatures,
    pub wq_fd: u32,
    pub resv: (u32, u32, u32),
    pub sq_off: IoRingSqOffsets,
    pub cq_off: IoRingCqOffsets,
}

/// Parameters that are all zero but for the flags.
pub open spec fn params_with(flags: IoUringSetupFlags) -> IoUringParams {
    IoUringParams {
        sq_entries: 0,
        cq_entries: 0,
        flags,
        sq_thread_cpu: 0,
        sq_thread_idle: 0,
        features: IoUringFeatures { bits: 0 },
        wq_fd: 0,
        resv: (0, 0, 0),
        sq_off: IoRingSqOffsets {
            head: 0,
            tail: 0,
            ring_mask: 0,
            ring_entries: 0,
            flags: 0,
            dropped: 0,
            array: 0,
            resv1: 0,
            user_addr: 0,
        },
        cq_off: IoRingCqOffsets {
            head: 0,
            tail: 0,
            ring_mask: 0,
            ring_entries: 0,
            overflow: 0,
            cqes: 0,
            flags: 0,
            resv1: 0,
            user_addr: 0,
        },
    }
}

impl IoUringParams {
    pub fn with_flags(flags: IoUringSetupFlags) -> (r: IoUringParams)
        ensures
            r == params_with(flags),
            r.flags == flags && r.features.bits == 0,
            r.sq_entries == 0 && r.cq_entries == 0,
    {
        IoUringParams {
            sq_entries: 0,
            cq_entries: 0,
            flags,
            sq_thread_cpu: 0,
            sq_thread_idle: 0,
            features: IoUringFeatures { bits: 0 },
            wq_fd: 0,
            resv: (0, 0, 0),
            sq_off: IoRingSqOffsets {
                head: 0,
                tail: 0,
                ring_mask: 0,
                ring_entries: 0,
                flags: 0,
                dropped: 0,
                array: 0,
                resv1: 0,
                user_addr: 0,
            },
            cq_off: IoRingCqOffsets {
                head: 0,
                tail: 0,
                ring_mask: 0,
                ring_entries: 0,
                overflow: 0,
                cqes: 0,
                flags: 0,
                resv1: 0,
                user_addr: 0,
            },
        }
    }
}

/// Every way to set up a ring has a bit of its own, in the order in which they came to be.
pub proof fn law_setup_bits()
    ensures
        SETUP_IOPOLL == 1u32 << 0u32,
        SETUP_SQPOLL == 1u32 << 1u32,
        SETUP_SQ_AFF == 1u32 << 2u32,
        SETUP_CQSIZE == 1u32 << 3u32,
        SETUP_CLAMP == 1u32 << 4u32,
        SETUP_ATTACH_WQ == 1u32 << 5u32,
        SETUP_R_DISABLED == 1u32 << 6u32,
        SETUP_SUBMIT_ALL == 1u32 << 7u32,
        SETUP_COOP_TASKRUN == 1u32 << 8u32,
        SETUP_TASKRUN_FLAG == 1u32 << 9u32,
        SETUP_SQE128 == 1u32 << 10u32,
        SETUP_CQE32 == 1u32 << 11u32,
        SETUP_SINGLE_ISSUER == 1u32 << 12u32,
        SETUP_DEFER_TASKRUN == 1u32 << 13u32,
        SETUP_NO_MMAP == 1u32 << 14u32,
        SETUP_REGISTERED_FD_ONLY == 1u32 << 15u32,
        SETUP_NO_SQARRAY == 1u32 << 16u32,
        SETUP_HYBRID_IOPOLL == 1u32 << 17u32,
        SETUP_CQE_MIXED == 1u32 << 18u32,
        SETUP_SQE_MIXED == 1u32 << 19u32,
        SETUP_SQ_REWIND == 1u32 << 20u32,
{
    assert(0x1u32 == 1u32 << 0u32
        && 0x2u32 == 1u32 << 1u32
        && 0x4u32 == 1u32 << 2u32
        && 0x8u32 == 1u32 << 3u32
        && 0x10u32 == 1u32 << 4u32
        && 0x20u32 == 1u32 << 5u32
        && 0x40u32 == 1u32 << 6u32
        && 0x80u32 == 1u32 << 7u32
        && 0x100u32 == 1u32 << 8u32
        && 0x200u32 == 1u32 << 9u32
        && 0x400u32 == 1u32 << 10u32
        && 0x800u32 == 1u32 << 11u32
        && 0x1000u32 == 1u32 << 12u32
        && 0x2000u32 == 1u32 << 13u32
        && 0x4000u32 == 1u32 << 14u32
        && 0x8000u32 == 1u32 << 15u32
        && 0x10000u32 == 1u32 << 16u32
        && 0x20000u32 == 1u32 << 17u32
        && 0x40000u32 == 1u32 << 18u32
        && 0x80000u32 == 1u32 << 19u32
        && 0x100000u32 == 1u32 << 20u32) by (bit_vector);
}

/// Every feature has a bit of its own, in the order in which they came to be.
pub proof fn law_feature_bits()
    ensures
        FEAT_SINGLE_MMAP == 1u32 << 0u32,
        FEAT_NODROP == 1u32 << 1u32,
        FEAT_SUBMIT_STABLE == 1u32 << 2u32,
        FEAT_RW_CUR_POS == 1u32 << 3u32,
        FEAT_CUR_PERSONALITY == 1u32 << 4u32,
        FEAT_FAST_POLL == 1u32 << 5u32,
        FEAT_POLL_32BITS == 1u32 << 6u32,
        FEAT_SQPOLL_NONFIXED == 1u32 << 7u32,
        FEAT_EXT_ARG == 1u32 << 8u32,
        FEAT_NATIVE_WORKERS == 1u32 << 9u32,
        FEAT_RSRC_TAGS == 1u32 << 10u32,
        FEAT_CQE_SKIP == 1u32 << 11u32,
        FEAT_LINKED_FILE == 1u32 << 12u32,
        FEAT_REG_REG_RING == 1u32 << 13u32,
        FEAT_RECVSEND_BUNDLE == 1u32 << 14u32,
        FEAT_MIN_TIMEOUT == 1u32 << 15u32,
        FEAT_RW_ATTR == 1u32 << 16u32,
        FEAT_NO_IOWAIT == 1u32 << 17u32,
{
    assert(0x1u32 == 1u32 << 0u32
        && 0x2u32 == 1u32 << 1u32
        && 0x4u32 == 1u32 << 2u32
        && 0x8u32 == 1u32 << 3u32
        && 0x10u32 == 1u32 << 4u32
        && 0x20u32 == 1u32 << 5u32
        && 0x40u32 == 1u32 << 6u32
        && 0x80u32 == 1u32 << 7u32
        && 0x100u32 == 1u32 << 8u32
        && 0x200u32 == 1u32 << 9u32
        && 0x400u32 == 1u32 << 10u32
        && 0x800u32 == 1u32 << 11u32
        && 0x1000u32 == 1u32 << 12u32
        && 0x2000u32 == 1u32 << 13u32
        && 0x4000u32 == 1u32 << 14u32
        && 0x8000u32 == 1u32 << 15u32
        && 0x10000u32 == 1u32 << 16u32
        && 0x20000u32 == 1u32 << 17u32) by (bit_vector);
}

/// Parameters with given flags are zero otherwise.
pub proof fn law_params_blank(flags: IoUringSetupFlags)
    ensures
        ({
            let params = params_with(flags);
            &&& params.flags == flags
            &&& params.sq_entries == 0 && params.cq_entries == 0
            &&& params.sq_thread_cpu == 0 && params.sq_thread_idle == 0 && params.wq_fd == 0
            &&& params.features.bits == 0
            &&& params.resv.0 == 0 && params.resv.1 == 0 && params.resv.2 == 0
            &&& params.sq_off.head == 0 && params.sq_off.tail == 0 && params.sq_off.flags == 0
            &&& params.sq_off.ring_mask == 0 && params.sq_off.ring_entries == 0
            &&& params.sq_off.dropped == 0 && params.sq_off.array == 0
            &&& params.sq_off.resv1 == 0 && params.sq_off.user_addr == 0
            &&& params.cq_off.head == 0 && params.cq_off.tail == 0 && params.cq_off.flags == 0
            &&& params.cq_off.ring_mask == 0 && params.cq_off.ring_entries == 0
            &&& params.cq_off.overflow == 0 && params.cq_off.cqes == 0
            &&& params.cq_off.resv1 == 0 && params.cq_off.user_addr == 0
        }),
{
}

/// Flags contain others exactly if no bit of those is missing from them.
pub proof fn law_contains(flags: IoUringSetupFlags, features: IoUringFeatures, bits: u32)
    ensures
        flags.has(bits) <==> bits & !flags.bits == 0,
        features.has(bits) <==> bits & !features.bits == 0,
{
    let a = flags.bits;
    let b = features.bits;
    assert((a & bits == bits) <==> (bits & !a == 0)) by (bit_vector);
    assert((b & bits == bits) <==> (bits & !b == 0)) by (bit_vector);
}

} // verus!
