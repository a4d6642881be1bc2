//! The closed result-code set of the kernel and the compact result value
//! handed across the embedding boundary.

use vstd::prelude::*;

verus! {

/// Every kernel operation reports its outcome as one of these codes.
#[derive(Clone, Copy, Debug, PartialEq, Eq, Structural)]
pub enum ResultCode {
    /// The operation succeeded.
    Success,
    /// The handle or line number does not refer to an existing entity.
    NotFound,
    /// The operation is disallowed in the current state.
    InvalidState,
    /// An input failed structural validation.
    ValidationFailed,
    /// The caller's output buffer is too small.
    InsufficientBuffer,
    /// The transaction exceeded its inactivity limit before this mutation.
    TimedOut,
    /// The transaction was resolved from a transient state during replay.
    RecoveryFailed,
    /// A log, lock-acquisition, or system-time failure.
    InternalError,
}

/// The stable numeric value of a result code, as seen across the embedding
/// boundary.
pub open spec fn code_value(c: ResultCode) -> i32 {
    match c {
        ResultCode::Success => 0,
        ResultCode::NotFound => 1,
        ResultCode::InvalidState => 2,
        ResultCode::ValidationFailed => 3,
        ResultCode::InsufficientBuffer => 4,
        ResultCode::TimedOut => 5,
        ResultCode::RecoveryFailed => 6,
        ResultCode::InternalError => 255,
    }
}

impl ResultCode {
    /// The stable numeric value of this code.
    pub fn as_code(&self) -> (c: i32)
        ensures
            c == code_value(*self),
    {
        match self {
            ResultCode::Success => 0,
            ResultCode::NotFound => 1,
            ResultCode::InvalidState => 2,
            ResultCode::ValidationFailed => 3,
            ResultCode::InsufficientBuffer => 4,
            ResultCode::TimedOut => 5,
            ResultCode::RecoveryFailed => 6,
            ResultCode::InternalError => 255,
        }
    }
}

/// A compact operation result: a numeric code from the closed set, plus a
/// reserved word kept zero.
#[derive(Clone, Copy, Debug, PartialEq, Eq, Structural)]
pub struct PkResult {
    pub code: i32,
    pub reserved: i32,
}

impl PkResult {
    /// The successful result.
    pub fn ok() -> (r: PkResult)
        ensures
            r.code == 0,
            r.reserved == 0,
    {
        PkResult { code: 0, reserved: 0 }
    }

    /// The result carrying the numeric value of `c`.
    pub fn err(c: ResultCode) -> (r: PkResult)
        ensures
            r.code == code_value(c),
            r.reserved == 0,
    {
        PkResult { code: c.as_code(), reserved: 0 }
    }

    /// Whether this result reports success.
    pub fn is_ok(&self) -> (b: bool)
        ensures
            b == (self.code == 0),
    {
        self.code == 0
    }
}

} // verus!
