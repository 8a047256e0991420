use vstd::prelude::*;

verus! {

/// Normalized error kinds surfaced by the library.
///
/// `ProvisioningFailed` wraps the error that made a provisioning run abort,
/// so a caller can still see the underlying cause.
#[derive(Debug)]
pub enum AppError {
    /// The partition-table bytes were too short to supply a requested slot.
    MalformedTable,
    /// The underlying byte store failed a read, write or seek.
    IoError,
    /// A seek on a bounded region resolved outside `[0, size]`.
    OutOfBounds,
    /// The partition scan exhausted all slots without an accepted candidate.
    NoBootVolume,
    /// An artifact specification matched the raw form but carries an
    /// offset too large to represent.
    UnrecognizedArtifact,
    /// An artifact source could not be read as an absolute URL with a path.
    InvalidUrl,
    /// The artifact list was empty.
    NoFiles,
    /// No entry matched the requested key.
    NotFound,
    /// Fetching or writing one artifact failed; the cause is wrapped.
    ProvisioningFailed(Box<AppError>),
}

} // verus!
