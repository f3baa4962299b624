//! Mapping memory.

use vstd::prelude::*;

use crate::slab::model::Region;
use crate::sys::error::SysError;
use crate::sys::numbers::SysNumbers;

verus! {

/// What mapping memory returns when it fails.
pub const MAP_FAILED: usize = usize::MAX;

/// How a mapping is to behave.
#[derive(Clone, Copy, PartialEq, Eq, Structural)]
pub struct MmapFlags {
    pub bits: u8,
}

/// Writes go to whatever is mapped, and others see them.
pub const MMAP_SHARED: u8 = 1;

/// All pages are made present right away.
pub const MMAP_POPULATE: u8 = 2;

impl MmapFlags {
    pub open spec fn has(self, bits: u8) -> bool {
        self.bits & bits == bits
    }

    pub fn contains(self, bits: u8) -> (r: bool)
        ensures
            r == self.has(bits),
            r <==> self.bits & bits == bits,
    {
        self.bits & bits == bits
    }
}

impl Default for MmapFlags {
    fn default() -> (r: MmapFlags)
        ensures
            r.bits == 0,
    {
        MmapFlags { bits: 0 }
    }
}

/// What may be done with mapped memory.
#[derive(Clone, Copy, PartialEq, Eq, Structural)]
pub enum MmapProtect {
    NoAccess,
    Read,
    ReadWrite,
    ReadWriteExec,
}

impl Default for MmapProtect {
    fn default() -> (r: MmapProtect)
        ensures
            r == MmapProtect::NoAccess,
    {
        MmapProtect::NoAccess
    }
}

impl MmapProtect {
    pub open spec fn flags(self, sys: SysNumbers) -> i32 {
        match self {
            MmapProtect::NoAccess => sys.prot_none,
            MmapProtect::Read => sys.prot_read,
            MmapProtect::ReadWrite => sys.prot_read | sys.prot_write,
            MmapProtect::ReadWriteExec => sys.prot_read | sys.prot_write | sys.prot_exec,
        }
    }

    pub fn into_flags(self, sys: SysNumbers) -> (r: i32)
        ensures
            r == self.flags(sys),
            self is NoAccess ==> r == sys.prot_none,
            self is Read ==> r == sys.prot_read,
            self is ReadWrite ==> r == sys.prot_read | sys.prot_write,
            self is ReadWriteExec ==> r == sys.prot_read | sys.prot_write | sys.prot_exec,
    {
        match self {
            MmapProtect::NoAccess => sys.prot_none,
            MmapProtect::Read => sys.prot_read,
            MmapProtect::ReadWrite => sys.prot_read | sys.prot_write,
            MmapProtect::ReadWriteExec => sys.prot_read | sys.prot_write | sys.prot_exec,
        }
    }
}

/// The arguments for mapping memory, wherever there is room for it.
#[derive(Debug, Clone, Copy, PartialEq, Eq, Structural)]
pub struct MmapRequest {
    pub size: usize,
    pub prot: i32,
    pub flags: i32,
    pub fd: i32,
    pub offset: i64,
}

/// The arguments that map `size` bytes of a file, given by its descriptor and an offset, or
/// of fresh memory.
pub open spec fn mmap_request(
    size: usize,
    protect: MmapProtect,
    flags: MmapFlags,
    file: Option<(i32, i64)>,
    sys: SysNumbers,
) -> MmapRequest {
    let visibility = if flags.has(MMAP_SHARED) {
        sys.map_shared
    } else {
        sys.map_private
    };
    let presence = if flags.has(MMAP_POPULATE) {
        sys.map_populate
    } else {
        0i32
    };
    let origin = if file is None {
        sys.map_anonymous
    } else {
        0i32
    };
    MmapRequest {
        size,
        prot: protect.flags(sys),
        flags: visibility | presence | origin,
        fd: match file {
            Some((fd, _)) => fd,
            None => -1i32,
        },
        offset: match file {
            Some((_, offset)) => offset,
            None => 0i64,
        },
    }
}

/// Why there is no mapping. What was mapped all the same is to be unmapped.
#[derive(Clone, Copy, PartialEq, Eq, Structural)]
pub struct MmapFailure {
    pub error: SysError,
    pub unmap: Option<Region>,
}

/// Mapped memory.
#[derive(PartialEq, Eq, Structural)]
pub struct Mmap {
    pub mapping: Region,
}

impl Mmap {
    /// What to ask for, to map `size` bytes.
    pub fn new_options(
        size: usize,
        protect: MmapProtect,
        flags: Option<MmapFlags>,
        file: Option<(i32, i64)>,
        sys: SysNumbers,
    ) -> (r: MmapRequest)
        ensures
            r == mmap_request(
                size,
                protect,
                match flags {
                    Some(flags) => flags,
                    None => (MmapFlags { bits: 0 }),
                },
                file,
                sys,
            ),
            r.size == size,
            file matches Some(place) ==> r.fd == place.0 && r.offset == place.1,
            file is None ==> r.fd == -1 && r.offset == 0,
            file is None ==> r.flags & sys.map_anonymous == sys.map_anonymous,
            protect is NoAccess ==> r.prot == sys.prot_none,
            protect is Read ==> r.prot == sys.prot_read,
            protect is ReadWrite ==> r.prot == sys.prot_read | sys.prot_write,
            protect is ReadWriteExec ==> r.prot == sys.prot_read | sys.prot_write | sys.prot_exec,
            ({
                let wanted = match flags {
                    Some(flags) => flags.bits,
                    None => 0u8,
                };
                &&& wanted & 1 == 1 ==> r.flags & sys.map_shared == sys.map_shared
                &&& wanted & 1 != 1 ==> r.flags & sys.map_private == sys.map_private
                &&& wanted & 2 == 2 ==> r.flags & sys.map_populate == sys.map_populate
            }),
    {
        proof {
            law_request(
                size,
                protect,
                match flags {
                    Some(flags) => flags,
                    None => (MmapFlags { bits: 0 }),
                },
                file,
                sys,
            );
        }
        let flags: MmapFlags = match flags {
            Some(flags) => flags,
            None => MmapFlags::default(),
        };
        let (fd, offset): (i32, i64) = match file {
            Some(file) => file,
            None => (-1, 0),
        };
        let mut c_flags: i32 = 0;
        assert(forall|x: i32| #[trigger] (0i32 | x) == x) by (bit_vector);
        assert(forall|x: i32| #[trigger] (x | 0i32) == x) by (bit_vector);

        if flags.contains(MMAP_SHARED) {
            c_flags = c_flags | sys.map_shared;
        } else {
            c_flags = c_flags | sys.map_private;
        }

        if flags.contains(MMAP_POPULATE) {
            c_flags = c_flags | sys.map_populate;
        }

        if file.is_none() {
            c_flags = c_flags | sys.map_anonymous;
        }

        MmapRequest { size, prot: protect.into_flags(sys), flags: c_flags, fd, offset }
    }

    /// What to ask for, to map `size` bytes of fresh memory for reading and writing.
    pub fn new(size: usize, sys: SysNumbers) -> (r: MmapRequest)
        ensures
            r == mmap_request(size, MmapProtect::ReadWrite, (MmapFlags { bits: 0 }), None, sys),
            r.size == size,
            r.fd == -1 && r.offset == 0,
            r.prot == sys.prot_read | sys.prot_write,
            r.flags == sys.map_private | sys.map_anonymous,
    {
        proof {
            assert(0u8 & 1u8 == 0 && 0u8 & 2u8 == 0) by (bit_vector);
            law_request(size, MmapProtect::ReadWrite, MmapFlags { bits: 0 }, None, sys);
        }
        Self::new_options(size, MmapProtect::ReadWrite, None, None, sys)
    }

    /// What came of a request: `ret` is the address that was returned, and `errno` the error
    /// number at that time.
    pub fn from_reply(size: usize, ret: usize, errno: i32, sys: SysNumbers) -> (r: Result<
        Mmap,
        MmapFailure,
    >)
        ensures
            r == (if ret == MAP_FAILED {
                Err::<Mmap, MmapFailure>(
                    MmapFailure { error: SysError::Os { code: errno }, unmap: None },
                )
            } else if ret == 0 {
                Err(
                    MmapFailure {
                        error: SysError::Os { code: sys.erange },
                        unmap: Some(Region { addr: 0, len: size }),
                    },
                )
            } else {
                Ok(Mmap { mapping: Region { addr: ret, len: size } })
            }),
    {
        if ret == MAP_FAILED {
            return Err(MmapFailure { error: SysError::from_errno(errno), unmap: None });
        }
        if ret == 0 {
            return Err(
                MmapFailure {
                    error: SysError::from_errno(sys.erange),
                    unmap: Some(Region { addr: ret, len: size }),
                },
            );
        }
        Ok(Mmap { mapping: Region { addr: ret, len: size } })
    }

    /// Gives up the mapping. The memory stays mapped.
    pub fn into_non_null(self) -> (r: Region)
        ensures
            r == self.mapping,
    {
        self.mapping
    }

    pub fn from_non_null(mapping: Region) -> (r: Mmap)
        requires
            mapping.addr != 0,
        ensures
            r.mapping == mapping,
    {
        Mmap { mapping }
    }

    pub fn as_non_null(&self) -> (r: Region)
        ensures
            r == self.mapping,
    {
        self.mapping
    }

    /// The address of the first byte.
    pub fn as_non_null_ptr(&self) -> (r: usize)
        requires
            self.mapping.len > 0,
        ensures
            r == self.mapping.addr,
    {
        self.mapping.addr
    }

    pub fn len(&self) -> (r: usize)
        ensures
            r == self.mapping.len,
    {
        self.mapping.len
    }

    /// What is to be unmapped when the mapping goes.
    pub fn drop(self) -> (r: Region)
        requires
            self.mapping.len > 0,
        ensures
            r == self.mapping,
    {
        self.mapping
    }
}

/// The address of memory mapped for slabs: `ret` is what mapping it returned. Null and the
/// mark of failure are no addresses.
pub fn mapped_address(ret: usize) -> (r: Option<usize>)
    ensures
        r == (if ret == MAP_FAILED || ret == 0 {
            None
        } else {
            Some(ret)
        }),
{
    if ret == MAP_FAILED || ret == 0 {
        None
    } else {
        Some(ret)
    }
}

/// What a request asks for is what was wanted: as many bytes, from the same file and place,
/// for the same use. Its flags have the bits of a shared mapping or of a private one, those
/// for presence if that was wanted, those for fresh memory if there is no file, and no others.
pub proof fn law_request(
    size: usize,
    protect: MmapProtect,
    flags: MmapFlags,
    file: Option<(i32, i64)>,
    sys: SysNumbers,
)
    ensures
        ({
            let request = mmap_request(size, protect, flags, file, sys);
            let shared = flags.bits & 1 == 1;
            let populate = flags.bits & 2 == 2;
            &&& request.size == size
            &&& file matches Some(place) ==> request.fd == place.0 && request.offset == place.1
            &&& file is None ==> request.fd == -1 && request.offset == 0
            &&& protect is NoAccess ==> request.prot == sys.prot_none
            &&& protect is Read ==> request.prot == sys.prot_read
            &&& protect is ReadWrite ==> request.prot == sys.prot_read | sys.prot_write
            &&& protect is ReadWriteExec ==> request.prot == sys.prot_read | sys.prot_write
                | sys.prot_exec
            &&& shared ==> request.flags & sys.map_shared == sys.map_shared
            &&& !shared ==> request.flags & sys.map_private == sys.map_private
            &&& populate ==> request.flags & sys.map_populate == sys.map_populate
            &&& file is None ==> request.flags & sys.map_anonymous == sys.map_anonymous
            &&& request.flags & !((if shared {
                sys.map_shared
            } else {
                sys.map_private
            }) | (if populate {
                sys.map_populate
            } else {
                0i32
            }) | (if file is None {
                sys.map_anonymous
            } else {
                0i32
            })) == 0
            &&& !shared && !populate && file is None ==> request.flags == sys.map_private
                | sys.map_anonymous
        }),
{
    let a = if flags.bits & 1 == 1 {
        sys.map_shared
    } else {
        sys.map_private
    };
    let b = if flags.bits & 2 == 2 {
        sys.map_populate
    } else {
        0i32
    };
    let c = if file is None {
        sys.map_anonymous
    } else {
        0i32
    };
    assert((a | b | c) & a == a && (a | b | c) & b == b && (a | b | c) & c == c && (a | b | c) & !(a
        | b | c) == 0 && (b == 0 ==> a | b | c == a | c)) by (bit_vector);
}

/// The two kinds of flags do not share a bit.
pub proof fn law_flags_apart(flags: MmapFlags)
    ensures
        flags.has(MMAP_SHARED) <==> flags.bits & 1 == 1,
        flags.has(MMAP_POPULATE) <==> flags.bits & 2 == 2,
        MMAP_SHARED & MMAP_POPULATE == 0,
{
    assert(1u8 & 2u8 == 0) by (bit_vector);
}

} // verus!
