use vstd::prelude::*;

verus! {

/// Errors surfaced by the storage core.
///
/// Remote and protocol failures propagate unchanged up to the chunk store;
/// upload and download are all-or-nothing, so no partial success is ever
/// reported through an `Ok`.
#[derive(Debug)]
pub enum PentaractError {
    /// No currently-healthy worker is registered for the storage.
    NoWorkersAvailable,
    /// The remote backend answered with a non-success status, or with a
    /// success status whose body could not be understood.
    RemoteAPIError { status: u16, body: Vec<u8> },
    /// The path does not resolve to an existing node.
    NotFound { path: Vec<u8> },
    /// The operation does not apply to the kind of node the path names.
    InvalidOperation { reason: Vec<u8> },
    /// An upload failed after some chunks were already stored.
    PartialUploadError { uploaded: usize, failed_at: usize },
}

} // verus!
