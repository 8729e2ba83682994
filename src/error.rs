use vstd::prelude::*;

verus! {

/// Why an operation, or one item of it, failed.
#[derive(Clone, Copy, Debug, PartialEq, Eq, Structural)]
pub enum ErrorKind {
    PermissionDenied,
    NotFound,
    /// A conflict that no decision resolved.
    AlreadyExists,
    CrossVolume,
    InsufficientSpace,
    InvalidArchive,
    /// An archive entry whose path leads out of the destination directory.
    PathTraversal,
    Cancelled,
    /// A platform error code that has no kind of its own.
    Unknown(i32),
    /// The request cannot be started: no sources, or source and destination are one.
    InvalidRequest,
    /// Compression into a format that this build does not offer.
    UnsupportedFormat,
}

} // verus!
