//! The numbers by which the operating system knows things.

use vstd::prelude::*;

verus! {

/// What the operating system calls protections, kinds of mappings and errors. Systems do not
/// agree on these numbers.
#[derive(Debug, Clone, Copy, PartialEq, Eq, Structural)]
pub struct SysNumbers {
    pub prot_none: i32,
    pub prot_read: i32,
    pub prot_write: i32,
    pub prot_exec: i32,
    pub map_private: i32,
    /// A mapping whose writes others see. Where there are two kinds of these, the one that
    /// refuses unknown flags.
    pub map_shared: i32,
    pub map_anonymous: i32,
    pub map_populate: i32,
    /// A result is out of range.
    pub erange: i32,
    /// There is no memory.
    pub enomem: i32,
    /// Something is in use.
    pub ebusy: i32,
    /// Something is not supported.
    pub enotsup: i32,
}

} // verus!
