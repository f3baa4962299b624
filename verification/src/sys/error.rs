//! Errors of system calls.

use vstd::prelude::*;
use vstd::string::StringExecFns;

verus! {

pub type SysResult<T> = Result<T, SysError>;

/// Why a system call failed.
#[derive(Clone, Copy, PartialEq, Eq, Structural)]
pub enum SysError {
    /// An error that the operating system has a number for.
    Os { code: i32 },
    /// A result that stands for no such number.
    Unrecognised { ret: i64 },
}

/// What a failed system call that returned `ret` reports: such calls return the negated
/// error number.
pub open spec fn syscall_error(ret: i64) -> SysError {
    if i32::MIN <= -ret <= i32::MAX {
        SysError::Os { code: (-ret) as i32 }
    } else {
        SysError::Unrecognised { ret }
    }
}

/// The digit for a number below ten.
pub open spec fn digit(n: nat) -> char {
    ('0' as nat + n) as char
}

/// A number in decimal digits, without leading zeros.
pub open spec fn digits(n: nat) -> Seq<char>
    decreases n,
{
    if n < 10 {
        seq![digit(n)]
    } else {
        digits(n / 10).push(digit(n % 10))
    }
}

/// A number in decimal notation.
pub open spec fn decimal(n: int) -> Seq<char> {
    if n < 0 {
        seq!['-'] + digits((-n) as nat)
    } else {
        digits(n as nat)
    }
}

/// Appends a number in decimal digits.
fn append_digits(text: &mut String, n: u64)
    ensures
        final(text)@ == old(text)@ + digits(n as nat),
    decreases n,
{
    let ghost before = text@;
    if n >= 10 {
        append_digits(text, n / 10);
    }
    let last: &str = match n % 10 {
        0 => "0",
        1 => "1",
        2 => "2",
        3 => "3",
        4 => "4",
        5 => "5",
        6 => "6",
        7 => "7",
        8 => "8",
        _ => "9",
    };
    text.append(last);
    proof {
        reveal_strlit("0");
        reveal_strlit("1");
        reveal_strlit("2");
        reveal_strlit("3");
        reveal_strlit("4");
        reveal_strlit("5");
        reveal_strlit("6");
        reveal_strlit("7");
        reveal_strlit("8");
        reveal_strlit("9");
        assert(last@ =~= seq![digit((n % 10) as nat)]);
        assert(text@ =~= before + digits(n as nat));
    }
}

impl SysError {
    /// The error of a system call that returned `ret`.
    pub fn from_syscall_error(ret: i64) -> (r: SysError)
        ensures
            r == syscall_error(ret),
            -i32::MAX <= ret <= -(i32::MIN as int) ==> r == (SysError::Os { code: (-ret) as i32 }),
            ret < -i32::MAX || ret > -(i32::MIN as int) ==> r == (SysError::Unrecognised { ret }),
    {
        if ret == i64::MIN {
            return SysError::Unrecognised { ret };
        }
        let negated: i64 = -ret;
        if negated < i32::MIN as i64 || negated > i32::MAX as i64 {
            SysError::Unrecognised { ret }
        } else {
            SysError::Os { code: negated as i32 }
        }
    }

    /// The error with a given number.
    pub fn from_errno(errno: i32) -> (r: SysError)
        ensures
            r == (SysError::Os { code: errno }),
    {
        SysError::Os { code: errno }
    }

    /// What a result that stands for no error number is reported as. The operating system has
    /// its own words for the others.
    pub fn message(self) -> (r: Option<String>)
        ensures
            match self {
                SysError::Os { .. } => r is None,
                SysError::Unrecognised { ret } => {
                    &&& r is Some
                    &&& r->0@ == "unrecognised syscall error: "@ + decimal(ret as int)
                },
            },
    {
        match self {
            SysError::Os { .. } => None,
            SysError::Unrecognised { ret } => {
                let mut text: String = String::from_str("unrecognised syscall error: ");
                if ret < 0 {
                    let magnitude: u64 = if ret == i64::MIN {
                        0x8000_0000_0000_0000
                    } else {
                        (-ret) as u64
                    };
                    text.append("-");
                    append_digits(&mut text, magnitude);
                    proof {
                        reveal_strlit("-");
                        assert("-"@ =~= seq!['-']);
                        assert(text@ =~= "unrecognised syscall error: "@ + decimal(ret as int));
                    }
                } else {
                    append_digits(&mut text, ret as u64);
                }
                Some(text)
            },
        }
    }
}

/// An error number comes back out of what a system call makes of it.
pub proof fn law_errno_round_trip(errno: i32)
    ensures
        syscall_error((-errno) as i64) == (SysError::Os { code: errno }),
{
}

/// Different results of system calls report different errors.
pub proof fn law_errors_differ(a: i64, b: i64)
    requires
        a != b,
    ensures
        syscall_error(a) != syscall_error(b),
{
}

/// A result that is no negated error number is reported as it is.
pub proof fn law_unrecognised(ret: i64)
    requires
        ret < -i32::MAX || ret > -(i32::MIN as int),
    ensures
        syscall_error(ret) == (SysError::Unrecognised { ret }),
{
}

/// The number that decimal digits stand for.
pub open spec fn value_of(text: Seq<char>) -> int
    decreases text.len(),
{
    if text.len() == 0 {
        0
    } else {
        10 * value_of(text.drop_last()) + (text.last() as int - '0' as int)
    }
}

/// Digits are digits, stand for the number that they were made of, and do not start with a
/// zero, unless that is all there is.
pub proof fn law_digits(n: nat)
    ensures
        value_of(digits(n)) == n,
        digits(n).len() > 0,
        forall|i: int| 0 <= i < digits(n).len() ==> '0' <= #[trigger] digits(n)[i] <= '9',
        digits(n)[0] == '0' ==> digits(n).len() == 1,
    decreases n,
{
    let text = digits(n);
    if n < 10 {
        assert(text.drop_last() =~= Seq::<char>::empty());
        assert(value_of(Seq::<char>::empty()) == 0);
    } else {
        law_digits(n / 10);
        assert(text.drop_last() =~= digits(n / 10));
        assert(text[0] == digits(n / 10)[0]);
        if digits(n / 10)[0] == '0' {
            assert(digits(n / 10).drop_last() =~= Seq::<char>::empty());
            assert(value_of(Seq::<char>::empty()) == 0);
            assert(value_of(digits(n / 10)) == 0);
        }
    }
}

/// A number below zero has a sign ahead of its digits, and other numbers have none.
pub proof fn law_decimal(n: int)
    ensures
        n >= 0 ==> value_of(decimal(n)) == n && decimal(n)[0] != '-',
        n < 0 ==> decimal(n)[0] == '-' && value_of(decimal(n).skip(1)) == -n,
        n < 0 ==> decimal(n)[1] != '0',
{
    if n >= 0 {
        law_digits(n as nat);
    } else {
        law_digits((-n) as nat);
        assert(decimal(n).skip(1) =~= digits((-n) as nat));
        assert(decimal(n)[1] == digits((-n) as nat)[0]);
        if digits((-n) as nat)[0] == '0' {
            let text = digits((-n) as nat);
            assert(text.drop_last() =~= Seq::<char>::empty());
            assert(value_of(Seq::<char>::empty()) == 0);
        }
    }
}

} // verus!
