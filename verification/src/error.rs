//! The error type of the engine.

use vstd::prelude::*;

verus! {

/// The error that the file operations of the caller report.
#[verifier::external_type_specification]
#[verifier::external_body]
pub struct ExIoError(std::io::Error);

/// The error that `bincode` reports when it cannot encode or decode a record.
#[verifier::external_type_specification]
#[verifier::external_body]
pub struct ExBincodeErrorKind(bincode::ErrorKind);

/// Why an operation of the store failed.
#[derive(Debug)]
pub enum Error {
    /// The store was closed before the operation began.
    Closed,
    /// A file operation failed.
    Io(std::io::Error),
    /// A record could not be encoded or decoded: the log is corrupt or was
    /// written in another format.
    Serialization(bincode::Error),
    /// A counter, a file offset or a file id would leave the range of
    /// `u64`, or the clock cannot give the time as a number of nanoseconds in
    /// the range of `i64`.
    Overflow,
}

} // verus!
