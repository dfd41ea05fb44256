//! Pieces of the IPv6 socket tests that compute rather than call the system:
//! the fixed addresses they bind to, and how a call's result and `errno` are
//! judged against the error that was expected.
use vstd::prelude::*;

verus! {

/// `::1` as sixteen bytes.
pub fn ipv6_loopback() -> (r: [u8; 16])
    ensures
        forall|i: int| 0 <= i < 15 ==> r@[i] == 0,
        r@[15] == 1,
{
    let mut addr: [u8; 16] = [0; 16];
    addr[15] = 1;
    addr
}

/// `::` as sixteen bytes.
pub fn ipv6_unspecified() -> (r: [u8; 16])
    ensures
        forall|i: int| 0 <= i < 16 ==> r@[i] == 0,
{
    [0; 16]
}

/// How a call's outcome differs from the one expected.
#[derive(Clone, Copy, Debug, PartialEq, Eq, Structural)]
pub enum ErrnoMismatch {
    /// The call failed, with another error than the one expected.
    WrongErrno { expected: i32, got: i32 },
    /// The call failed where it was expected to succeed.
    UnexpectedError { got: i32 },
    /// The call succeeded where it was expected to fail.
    UnexpectedSuccess { expected: i32 },
}

/// The verdict on a call that returned `rv`, with `errno` the error number
/// left by the call, when `expected` is the error it should fail with, or
/// `None` if it should succeed. A call fails when it returns -1.
pub open spec fn errno_verdict(rv: i32, expected: Option<i32>, errno: i32) -> Result<(), ErrnoMismatch> {
    match expected {
        Some(e) => if rv == -1 {
            if errno == e {
                Ok(())
            } else {
                Err(ErrnoMismatch::WrongErrno { expected: e, got: errno })
            }
        } else {
            Err(ErrnoMismatch::UnexpectedSuccess { expected: e })
        },
        None => if rv == -1 {
            Err(ErrnoMismatch::UnexpectedError { got: errno })
        } else {
            Ok(())
        },
    }
}

/// Judges a call's result against the error it was expected to fail with.
pub fn errno_is(rv: i32, expected_errno: Option<i32>, errno: i32) -> (r: Result<(), ErrnoMismatch>)
    ensures
        r == errno_verdict(rv, expected_errno, errno),
{
    match expected_errno {
        Some(e) => {
            if rv == -1 {
                if errno == e {
                    Ok(())
                } else {
                    Err(ErrnoMismatch::WrongErrno { expected: e, got: errno })
                }
            } else {
                Err(ErrnoMismatch::UnexpectedSuccess { expected: e })
            }
        },
        None => {
            if rv == -1 {
                Err(ErrnoMismatch::UnexpectedError { got: errno })
            } else {
                Ok(())
            }
        },
    }
}

} // verus!
