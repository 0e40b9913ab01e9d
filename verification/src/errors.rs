//! Error taxonomy of the allocation and synchronisation layer.
//!
//! Resource exhaustion and capacity overruns are returned as explicit
//! results and never retried here; contention and timeout are ordinary
//! control-flow values (`None`), not errors.

use vstd::prelude::*;

verus! {

/// An error surfaced by the pool layer or the allocator.
#[derive(Clone, Copy, PartialEq, Eq, Structural, Debug)]
pub enum PmdkError {
    /// The pool has no room for another block.
    OutOfSpace,
    /// A grow request would push the chain past the largest length its
    /// class's packed descriptor can describe.
    CapacityExceeded,
    /// An open was asked for a pool name that the store does not hold.
    PoolDoesNotExist,
    /// A create was asked for a pool name that the store already holds.
    PoolAlreadyExists,
    /// A create was asked for a pool too small to hold a single block.
    PoolSizeTooSmall,
}

impl PmdkError {
    /// A short stable name for the error, for callers that log it.
    pub fn describe(&self) -> (r: &'static str)
        ensures
            (*self is OutOfSpace) ==> r@ == "out of space"@,
            (*self is CapacityExceeded) ==> r@ == "capacity exceeded"@,
            (*self is PoolDoesNotExist) ==> r@ == "pool does not exist"@,
            (*self is PoolAlreadyExists) ==> r@ == "pool already exists"@,
            (*self is PoolSizeTooSmall) ==> r@ == "pool size too small"@,
    {
        match self {
            PmdkError::OutOfSpace => "out of space",
            PmdkError::CapacityExceeded => "capacity exceeded",
            PmdkError::PoolDoesNotExist => "pool does not exist",
            PmdkError::PoolAlreadyExists => "pool already exists",
            PmdkError::PoolSizeTooSmall => "pool size too small",
        }
    }
}

/// An error surfaced by an atomic append to a log region.
#[derive(Clone, Copy, PartialEq, Eq, Structural, Debug)]
pub enum AppendError {
    /// The log region has no room for the appended bytes.
    OutOfSpace,
    /// The log region was opened read-only.
    ReadOnly,
}


/// OS error number for "no space left on device".
pub const ENOSPC: i32 = 28;

/// OS error number for "read-only file system".
pub const EROFS: i32 = 30;

/// OS error number for "operation canceled": a constructor callback
/// reported failure.
pub const ECANCELED: i32 = 125;

/// An error reported by a raw pool primitive, carrying the OS error
/// number and the operation that reported it.
#[derive(Clone, Copy, PartialEq, Eq, Debug)]
pub struct GenericError {
    /// The OS error number at the time of the failure.
    pub os_error_number: i32,
    /// The operation that reported the failure.
    pub function_name: &'static str,
}

impl GenericError {
    /// Wraps an OS error number and the operation that reported it.
    pub fn new(os_error_number: i32, function_name: &'static str) -> (r: Self)
        ensures
            r.os_error_number == os_error_number,
            r.function_name == function_name,
    {
        GenericError { os_error_number, function_name }
    }
}

/// Decodes the raw integer a consistency check hands back: one means the
/// check completed and reports the pool not consistent, zero means it
/// completed and reports it consistent, and minus one means the check
/// itself failed with the given OS error number. Any other value is a
/// broken primitive and is ruled out.
pub fn decode_consistency_check_result(
    result: i32,
    os_error_number: i32,
    function_name: &'static str,
) -> (r: Result<bool, GenericError>)
    requires
        result == 1 || result == 0 || result == -1,
    ensures
        result == 1 ==> r == Ok::<bool, GenericError>(false),
        result == 0 ==> r == Ok::<bool, GenericError>(true),
        result == -1 ==> r == Err::<bool, GenericError>(
            GenericError { os_error_number, function_name },
        ),
{
    if result == 1 {
        Ok(false)
    } else if result == 0 {
        Ok(true)
    } else {
        Err(GenericError::new(os_error_number, function_name))
    }
}

/// Decodes the raw pointer an open or create hands back: a null pointer
/// means failure with the given OS error number, anything else success.
pub fn decode_open_result(
    result_is_null: bool,
    os_error_number: i32,
    function_name: &'static str,
) -> (r: Result<(), GenericError>)
    ensures
        r is Ok <==> !result_is_null,
        result_is_null ==> r == Err::<(), GenericError>(
            GenericError { os_error_number, function_name },
        ),
{
    if result_is_null {
        Err(GenericError::new(os_error_number, function_name))
    } else {
        Ok(())
    }
}

/// Decodes the raw integer an atomic log append hands back: zero means
/// the bytes were appended, minus one a failure whose OS error number
/// names either exhaustion or a read-only log. Any other value, and any
/// other error number, is a broken primitive and is ruled out.
pub fn decode_append_result(result: i32, os_error_number: i32) -> (r: Result<(), AppendError>)
    requires
        result == 0 || result == -1,
        result == -1 ==> os_error_number == ENOSPC || os_error_number == EROFS,
    ensures
        result == 0 <==> r == Ok::<(), AppendError>(()),
        result == -1 && os_error_number == ENOSPC ==> r == Err::<(), AppendError>(
            AppendError::OutOfSpace,
        ),
        result == -1 && os_error_number == EROFS ==> r == Err::<(), AppendError>(
            AppendError::ReadOnly,
        ),
{
    if result == 0 {
        Ok(())
    } else {
        if os_error_number == ENOSPC {
            Err(AppendError::OutOfSpace)
        } else {
            Err(AppendError::ReadOnly)
        }
    }
}

} // verus!
