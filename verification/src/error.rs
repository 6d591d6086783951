use vstd::prelude::*;

verus! {

/// The failure kinds a cache invocation can surface. All of them are fatal to
/// the invocation that encounters them; none is retried internally.
#[derive(Debug, Clone, PartialEq, Eq)]
pub enum CacheError {
    /// A blob or command record is partially or fully missing on disk; the
    /// payload is the path (as bytes) whose component was absent.
    OpenPathError(Vec<u8>),
    /// A persisted document failed to parse.
    MalformedData,
    /// A filesystem or process I/O operation failed.
    IoFailure,
    /// An input file path could not be canonicalized before fingerprinting.
    UnresolvableInput,
    /// The external command's output stream could not be captured.
    CaptureFailure,
}

} // verus!
