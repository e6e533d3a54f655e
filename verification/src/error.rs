use vstd::prelude::*;

verus! {

/// Every way a resolution or a verified fetch can fail. The variants are
/// distinguishable so a caller can tell a missing version from a corrupted
/// payload from a transport that never delivered.
#[derive(Clone, Copy, Debug, PartialEq, Eq, Structural)]
pub enum Error {
    /// An expected digest value is not valid hex of its kind's output length.
    /// Detected before any payload byte is consumed.
    MalformedDigest,
    /// The artifact location yields no usable path segments, so no filename
    /// can be derived from it.
    MalformedLocation,
    /// The requested version label is not defined by the catalog.
    UnknownVersion,
    /// The catalog defines no versions at all.
    NoVersionsAvailable,
    /// The transport reported failure; nothing can be said about the bytes.
    TransportFailure,
    /// The transfer completed but at least one expected digest did not match.
    IntegrityMismatch,
}

} // verus!
