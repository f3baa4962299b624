//! The size of a page of memory.

use vstd::arithmetic::power2::is_pow2;
use vstd::prelude::*;

use crate::slab::mask::is_power_of_two;

verus! {

/// Why the operating system's answer is no page size.
#[derive(Debug, Clone, Copy, PartialEq, Eq, Structural)]
pub enum PageSizeError {
    /// The question failed. The error number tells why.
    Failed,
    /// The answer is no size of anything in memory.
    Invalid,
    /// Addresses cannot be masked by a size that is no power of two.
    Unsupported { size: usize },
}

/// The page size that an answer of the operating system stands for.
pub open spec fn page_size(sysconf: i64) -> Result<usize, PageSizeError> {
    if sysconf < 0 {
        Err(PageSizeError::Failed)
    } else if sysconf == 0 || sysconf > usize::MAX {
        Err(PageSizeError::Invalid)
    } else {
        Ok(sysconf as usize)
    }
}

/// The page size that an answer of the operating system stands for, for use with slabs.
pub open spec fn slab_page_size(sysconf: i64) -> Result<usize, PageSizeError> {
    match page_size(sysconf) {
        Ok(size) => if is_pow2(size as int) {
            Ok(size)
        } else {
            Err(PageSizeError::Unsupported { size })
        },
        Err(error) => Err(error),
    }
}

/// What comes of asking for the page size, and what is remembered afterwards: a remembered
/// size stands, whatever the answer; an answer that is a size is remembered.
pub open spec fn found(
    remembered: Option<usize>,
    answer: Result<usize, PageSizeError>,
) -> (Result<usize, PageSizeError>, Option<usize>) {
    match remembered {
        Some(size) => (Ok(size), remembered),
        None => match answer {
            Ok(size) => (Ok(size), Some(size)),
            Err(error) => (Err(error), None),
        },
    }
}

/// The page size that `sysconf` reported.
pub fn reported_page_size(sysconf: i64) -> (r: Result<usize, PageSizeError>)
    ensures
        r == page_size(sysconf),
{
    if sysconf < 0 {
        return Err(PageSizeError::Failed);
    }
    if sysconf == 0 || sysconf as u64 > usize::MAX as u64 {
        return Err(PageSizeError::Invalid);
    }
    Ok(sysconf as usize)
}

/// The page size that `sysconf` reported, for use with slabs.
pub fn reported_slab_page_size(sysconf: i64) -> (r: Result<usize, PageSizeError>)
    ensures
        r == slab_page_size(sysconf),
{
    match reported_page_size(sysconf) {
        Ok(size) => if is_power_of_two(size) {
            Ok(size)
        } else {
            Err(PageSizeError::Unsupported { size })
        },
        Err(error) => Err(error),
    }
}

/// The page size. The operating system is asked only if no size is remembered: `ask` need
/// not be callable otherwise.
pub fn get_page_size<F>(remembered: &mut Option<usize>, ask: F) -> (r: Result<
    usize,
    PageSizeError,
>) where F: FnOnce() -> i64
    requires
        *old(remembered) is None ==> call_requires(ask, ()),
    ensures
        *old(remembered) matches Some(size) ==> {
            &&& r == Ok::<usize, PageSizeError>(size)
            &&& *final(remembered) == *old(remembered)
        },
        *old(remembered) is None ==> exists|answer: i64| #[trigger]
            call_ensures(ask, (), answer) && (r, *final(remembered)) == found(
                None,
                page_size(answer),
            ),
        r matches Ok(size) ==> *final(remembered) == Some(size),
        r is Err ==> *final(remembered) is None,
{
    if let Some(size) = *remembered {
        return Ok(size);
    }
    let answer: i64 = ask();
    let size: usize = match reported_page_size(answer) {
        Ok(size) => size,
        Err(error) => return Err(error),
    };
    *remembered = Some(size);
    Ok(size)
}

/// As `get_page_size`, for use with slabs.
pub fn get_slab_page_size<F>(remembered: &mut Option<usize>, ask: F) -> (r: Result<
    usize,
    PageSizeError,
>) where F: FnOnce() -> i64
    requires
        *old(remembered) is None ==> call_requires(ask, ()),
    ensures
        *old(remembered) matches Some(size) ==> {
            &&& r == Ok::<usize, PageSizeError>(size)
            &&& *final(remembered) == *old(remembered)
        },
        *old(remembered) is None ==> exists|answer: i64| #[trigger]
            call_ensures(ask, (), answer) && (r, *final(remembered)) == found(
                None,
                slab_page_size(answer),
            ),
        r matches Ok(size) ==> *final(remembered) == Some(size),
        r is Err ==> *final(remembered) is None,
{
    if let Some(size) = *remembered {
        return Ok(size);
    }
    let answer: i64 = ask();
    let size: usize = match reported_slab_page_size(answer) {
        Ok(size) => size,
        Err(error) => return Err(error),
    };
    *remembered = Some(size);
    Ok(size)
}

/// The first answer that is a page size stands for good: from then on it is what comes of
/// asking, whatever a later answer would be. An answer that is none is an error, and leaves
/// nothing behind.
pub proof fn law_page_size_remembered(first: i64, later: i64)
    ensures
        ({
            let (size, remembered) = found(None, page_size(first));
            if 0 < first <= usize::MAX {
                &&& size == Ok::<usize, PageSizeError>(first as usize)
                &&& remembered == Some(first as usize)
                &&& found(remembered, page_size(later)) == (size, remembered)
            } else {
                size is Err && remembered is None
            }
        }),
{
}

/// As `law_page_size_remembered`, for slabs. A page size for slabs is a power of two.
pub proof fn law_slab_page_size_remembered(first: i64, later: i64)
    ensures
        ({
            let (size, remembered) = found(None, slab_page_size(first));
            if 0 < first <= usize::MAX && is_pow2(first as int) {
                &&& size == Ok::<usize, PageSizeError>(first as usize)
                &&& remembered == Some(first as usize)
                &&& found(remembered, slab_page_size(later)) == (size, remembered)
            } else {
                size is Err && remembered is None
            }
        }),
        slab_page_size(first) matches Ok(size) ==> size > 0 && is_pow2(size as int),
{
}

/// What a remembered size stands for does not change, and no answer is remembered in its
/// place.
pub proof fn law_remembered_stands(size: usize, answer: Result<usize, PageSizeError>)
    ensures
        found(Some(size), answer) == (Ok::<usize, PageSizeError>(size), Some(size)),
{
}

/// Which answers are no page size, and why: negative ones are failures, zero and what is not
/// to be addressed is no size, and slabs cannot do with a size that is no power of two.
pub proof fn law_page_size_errors(sysconf: i64)
    ensures
        sysconf < 0 <==> page_size(sysconf) == Err::<usize, _>(PageSizeError::Failed),
        sysconf == 0 || sysconf > usize::MAX <==> page_size(sysconf) == Err::<usize, _>(
            PageSizeError::Invalid,
        ),
        page_size(sysconf) matches Ok(size) ==> size == sysconf,
        page_size(sysconf) is Err ==> slab_page_size(sysconf) == page_size(sysconf),
        0 < sysconf <= usize::MAX && !is_pow2(sysconf as int) <==> slab_page_size(sysconf)
            == Err::<usize, _>(PageSizeError::Unsupported { size: sysconf as usize })
            && sysconf > 0,
        slab_page_size(sysconf) matches Ok(size) ==> size == sysconf,
{
}

} // verus!
