use vstd::prelude::*;

verus! {

/// The fatal failure taxonomy of the version manager. Non-fatal outcomes
/// (a "nothing to do" notice during batch removal, a missing-auxiliary
/// warning during activation) are reported as ordinary return values, not
/// through this type.
#[derive(Clone, Copy, Debug, PartialEq, Eq, Structural)]
pub enum Error {
    /// The release registry was unreachable or answered with a failure status.
    Network,
    /// The registry payload could not be decoded into release descriptors.
    Decode,
    /// The requested release tag does not exist upstream.
    NotFound,
    /// The content length of a download could not be determined up front.
    LengthUnknown,
    /// A download stream failed mid-transfer; no partial result is kept.
    Fetch,
    /// The downloaded archive's digest does not match the expected digest.
    Integrity,
    /// The archive could not be decompressed or extracted.
    Extract,
    /// A filesystem link could not be created or removed, or the version to
    /// activate has no primary executable in the cache.
    Link,
    /// Removing the currently active version was requested without force.
    RemoveActive,
    /// No active-version link exists.
    NoActiveVersion,
    /// The active-version link exists but its target cannot be decomposed
    /// into a version identifier.
    BrokenLink,
}

} // verus!
