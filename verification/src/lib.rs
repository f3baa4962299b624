//! A slab allocator and the system layer beneath it: page mappings, io_uring
//! rings and coroutines. Everything here decides; nothing here talks to the
//! operating system. Results of system calls come in as plain values, requests
//! for system calls go out as plain values.

pub mod pointer;
pub mod slab;
pub mod sys;
