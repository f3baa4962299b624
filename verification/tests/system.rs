use slobster::slab::model::Region;
use slobster::sys::coroutine::{stack_alloc, CoroutineState, STACK_SIZE};
use slobster::sys::error::SysError;
use slobster::sys::mman::{
    mapped_address, Mmap, MmapFailure, MmapFlags, MmapProtect, MmapRequest, MAP_FAILED,
    MMAP_POPULATE, MMAP_SHARED,
};
use slobster::sys::numbers::SysNumbers;
use slobster::sys::page::{
    get_page_size, get_slab_page_size, reported_page_size, reported_slab_page_size, PageSizeError,
};

/// The numbers of the system that the tests run on.
const SYS: SysNumbers = SysNumbers {
    prot_none: libc::PROT_NONE,
    prot_read: libc::PROT_READ,
    prot_write: libc::PROT_WRITE,
    prot_exec: libc::PROT_EXEC,
    map_private: libc::MAP_PRIVATE,
    map_shared: libc::MAP_SHARED_VALIDATE,
    map_anonymous: libc::MAP_ANONYMOUS,
    map_populate: libc::MAP_POPULATE,
    erange: libc::ERANGE,
    enomem: libc::ENOMEM,
    ebusy: libc::EBUSY,
    enotsup: libc::ENOTSUP,
};

#[test]
fn failed_mappings_have_the_address_of_the_system() {
    assert_eq!(MAP_FAILED, libc::MAP_FAILED as usize);
}

#[test]
fn numbers_are_those_that_are_passed() {
    let other = SysNumbers { map_anonymous: 0x800, map_populate: 0x10000, erange: 77, ..SYS };
    let both = MmapFlags { bits: MMAP_SHARED | MMAP_POPULATE };
    assert_eq!(Mmap::new(64, other).flags, libc::MAP_PRIVATE | 0x800);
    assert_eq!(
        Mmap::new_options(64, MmapProtect::Read, Some(both), Some((3, 0)), other).flags,
        libc::MAP_SHARED_VALIDATE | 0x10000
    );
    assert!(Mmap::from_reply(64, 0, 12, other).err().unwrap().error == SysError::Os { code: 77 });
}

#[test]
fn errors_of_system_calls_are_negated_numbers() {
    assert!(SysError::from_syscall_error(-12) == SysError::Os { code: 12 });
    assert!(SysError::from_syscall_error(12) == SysError::Os { code: -12 });
    assert!(SysError::from_syscall_error(0) == SysError::Os { code: 0 });
    assert!(
        SysError::from_syscall_error(0x8000_0000)
            == SysError::Os { code: i32::MIN }
    );
    assert!(
        SysError::from_syscall_error(-0x8000_0000)
            == SysError::Unrecognised { ret: -0x8000_0000 }
    );
    assert!(
        SysError::from_syscall_error(i64::MIN)
            == SysError::Unrecognised { ret: i64::MIN }
    );
    assert!(SysError::from_errno(5) == SysError::Os { code: 5 });
}

#[test]
fn error_numbers_survive_system_calls() {
    for errno in [1, 12, 95, i32::MAX] {
        assert!(
        SysError::from_syscall_error(-(errno as i64))
            == SysError::from_errno(errno)
    );
    }
    assert!(SysError::from_syscall_error(-1) != SysError::from_syscall_error(-2));
}

#[test]
fn unrecognised_results_have_a_message() {
    let message = |ret: i64| SysError::from_syscall_error(ret).message();
    assert_eq!(
        message(-0x8000_0000),
        Some("unrecognised syscall error: -2147483648".to_string())
    );
    assert_eq!(
        message(i64::MIN),
        Some("unrecognised syscall error: -9223372036854775808".to_string())
    );
    assert_eq!(
        message(1_000_203_004_567_890),
        Some("unrecognised syscall error: 1000203004567890".to_string())
    );
    assert_eq!(
        SysError::Unrecognised { ret: 0 }.message(),
        Some("unrecognised syscall error: 0".to_string())
    );
    assert_eq!(message(-12), None);
}

#[test]
fn page_sizes_are_checked() {
    assert_eq!(reported_page_size(4096), Ok(4096));
    assert_eq!(reported_page_size(4095), Ok(4095));
    assert_eq!(reported_page_size(-1), Err(PageSizeError::Failed));
    assert_eq!(reported_page_size(0), Err(PageSizeError::Invalid));
    assert_eq!(reported_slab_page_size(16384), Ok(16384));
    assert_eq!(reported_slab_page_size(-1), Err(PageSizeError::Failed));
    assert_eq!(reported_slab_page_size(0), Err(PageSizeError::Invalid));
    assert_eq!(
        reported_slab_page_size(6000),
        Err(PageSizeError::Unsupported { size: 6000 })
    );
}

#[test]
fn page_sizes_are_remembered() {
    let mut remembered = None;
    assert_eq!(get_page_size(&mut remembered, || -1), Err(PageSizeError::Failed));
    assert_eq!(remembered, None);
    assert_eq!(get_page_size(&mut remembered, || 6000), Ok(6000));
    assert_eq!(remembered, Some(6000));
    assert_eq!(get_page_size(&mut remembered, || panic!("asked again")), Ok(6000));

    let mut remembered = None;
    assert_eq!(
        get_slab_page_size(&mut remembered, || 6000),
        Err(PageSizeError::Unsupported { size: 6000 })
    );
    assert_eq!(remembered, None);
    assert_eq!(get_slab_page_size(&mut remembered, || 4096), Ok(4096));
    assert_eq!(get_slab_page_size(&mut remembered, || panic!("asked again")), Ok(4096));
    assert_eq!(remembered, Some(4096));
}

#[test]
fn fresh_memory_is_private() {
    assert_eq!(
        Mmap::new(8192, SYS),
        MmapRequest { size: 8192, prot: 3, flags: 0x22, fd: -1, offset: 0 }
    );
    assert!(MmapProtect::default() == MmapProtect::NoAccess);
    assert!(MmapFlags::default() == MmapFlags { bits: 0 });
}

#[test]
fn files_are_mapped_from_their_offset() {
    let shared = MmapFlags { bits: MMAP_SHARED };
    let both = MmapFlags { bits: MMAP_SHARED | MMAP_POPULATE };
    assert_eq!(
        Mmap::new_options(64, MmapProtect::Read, Some(shared), Some((3, 4096)), SYS),
        MmapRequest { size: 64, prot: 1, flags: 3, fd: 3, offset: 4096 }
    );
    assert_eq!(
        Mmap::new_options(64, MmapProtect::ReadWriteExec, Some(both), Some((3, 0)), SYS),
        MmapRequest { size: 64, prot: 7, flags: 0x8003, fd: 3, offset: 0 }
    );
    assert_eq!(
        Mmap::new_options(64, MmapProtect::NoAccess, None, Some((3, 0)), SYS),
        MmapRequest { size: 64, prot: 0, flags: 2, fd: 3, offset: 0 }
    );
}

#[test]
fn replies_to_mapping_are_told_apart() {
    let map = Mmap::from_reply(64, 0x1000, 0, SYS).ok().unwrap();
    assert_eq!(map.len(), 64);
    assert_eq!(map.as_non_null_ptr(), 0x1000);
    assert_eq!(map.as_non_null(), Region { addr: 0x1000, len: 64 });
    assert_eq!(map.drop(), Region { addr: 0x1000, len: 64 });
    let region = Region { addr: 0x2000, len: 32 };
    assert_eq!(Mmap::from_non_null(region).into_non_null(), region);
    assert!(
        Mmap::from_reply(64, MAP_FAILED, 12, SYS)
            == Err(MmapFailure { error: SysError::Os { code: 12 }, unmap: None })
    );
    assert!(
        Mmap::from_reply(64, 0, 12, SYS)
            == Err(MmapFailure {
            error: SysError::Os { code: libc::ERANGE },
            unmap: Some(Region { addr: 0, len: 64 })
        })
    );
    assert_eq!(mapped_address(MAP_FAILED), None);
    assert_eq!(mapped_address(0), None);
    assert_eq!(mapped_address(0x1000), Some(0x1000));
}

/// What a coroutine does each time control is passed to it.
struct Script {
    start: &'static str,
    resume: &'static str,
}

struct Coroutine {
    state: CoroutineState<Script, String>,
    resume: &'static str,
}

impl Coroutine {
    fn new(script: Script) -> Coroutine {
        let resume = script.resume;
        Coroutine { state: CoroutineState::new(script), resume }
    }

    fn enter(&mut self, log: &mut Vec<&'static str>) {
        assert!(self.state.enterable());
        match self.state.run() {
            Some(script) => {
                log.push(script.start);
                self.state.leave(None);
            },
            None => {
                log.push(self.resume);
                self.state.leave(Some(Ok(())));
            },
        }
    }
}

#[test]
fn simple_coroutines() {
    let coro1 = Coroutine::new(Script { start: "coro 1 start", resume: "coro 1 resume" });
    let coro2 = Coroutine::new(Script { start: "coro 2 start", resume: "coro 2 resume" });
    let mut log = Vec::new();

    let mut backlog = vec![coro1, coro2];

    while !backlog.is_empty() {
        let mut i = 0usize;
        while let Some(coro) = backlog.get_mut(i) {
            coro.enter(&mut log);
            if coro.state.done() {
                backlog.swap_remove(i);
            } else {
                i += 1;
            }
        }
    }

    assert_eq!(log, vec!["coro 1 start", "coro 2 start", "coro 1 resume", "coro 2 resume"]);
}

#[test]
fn coroutines_start_once() {
    let mut state: CoroutineState<u32, String> = CoroutineState::new(7);
    assert!(!state.done());
    assert_eq!(state.run(), Some(7));
    assert_eq!(state.run(), None);
    assert!(matches!(state, CoroutineState::Running));
    state.leave(None);
    assert!(state.enterable());
    state.leave(Some(Err("lost".to_string())));
    assert!(state.done());
    assert!(!state.enterable());
    assert_eq!(state.run(), None);
    assert!(matches!(state, CoroutineState::Panicked { payload } if payload == "lost"));
}

#[test]
fn coroutines_return() {
    let mut state: CoroutineState<u32, String> = CoroutineState::new(7);
    state.run();
    state.leave(Some(Ok(())));
    assert!(matches!(state, CoroutineState::Returned));
    assert!(state.done());
}

#[test]
fn stacks_have_a_page_to_spare() {
    assert_eq!(STACK_SIZE, 1024 * 1024);
    assert_eq!(stack_alloc(4096), 1024 * 1024 + 4096);
}
