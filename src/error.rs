use vstd::prelude::*;

verus! {

/// What can go wrong while reading or printing an environment.
#[derive(Debug, PartialEq, Eq)]
pub enum AppError {
    /// The process does not exist, or went away while it was read.
    NotFound(String),
    /// Too little privilege to read the process.
    AccessDenied(String),
    /// Any other failure of the operating system, in its own words.
    IoError(String),
    /// A kernel buffer is not shaped as expected.
    MalformedData,
    /// A UTF-16 environment block is not valid Unicode.
    DecodeError,
    /// The JSON encoder failed.
    SerdeJson,
}

} // verus!
