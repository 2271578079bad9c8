//! The errors of the introspection layer.
use vstd::prelude::*;

verus! {

/// Why an operation failed.
#[derive(Clone, Copy, Debug, PartialEq, Eq, Structural)]
pub enum ErrorKind {
    /// The operating system could not be queried: permission was denied, the
    /// process exited during the query, or the snapshot could not be taken.
    UnableToReadSource,
    /// The address is not in the most recent cache, or the architecture does
    /// not match.
    NotFound,
    /// The host platform does not offer the capability.
    NotImplemented,
}

/// The error of the Windows API, opaque to this library.
#[verifier::external_type_specification]
#[verifier::external_body]
pub struct ExWindowsError(windows::core::Error);

/// The error of the proc file system reader, opaque to this library.
#[verifier::external_type_specification]
#[verifier::external_body]
pub struct ExProcError(procfs::ProcError);

/// What a failure of the Windows API means to a caller: the operating system
/// could not be queried. The details of the failure are dropped.
pub fn conv_err(_err: windows::core::Error) -> (e: ErrorKind)
    ensures
        e == ErrorKind::UnableToReadSource,
{
    ErrorKind::UnableToReadSource
}

/// What a failure to read the proc file system means to a caller: the
/// operating system could not be queried. The details are dropped.
pub fn conv_proc_err(_err: procfs::ProcError) -> (e: ErrorKind)
    ensures
        e == ErrorKind::UnableToReadSource,
{
    ErrorKind::UnableToReadSource
}

} // verus!
