use vstd::prelude::*;

verus! {

/// What went wrong in an operation, by kind.
#[derive(Debug, Clone, Copy, PartialEq, Eq, Structural)]
pub enum FsError {
    NotFound,
    PermissionDenied,
    IsADirectory,
    NotADirectory,
    AlreadyExists,
    CrossDevice,
    InvalidEncoding,
    InvalidPath,
    DecodeError,
    UnsupportedPlatform,
    ParseError,
    IoError,
}

} // verus!
