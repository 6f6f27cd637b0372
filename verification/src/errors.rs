use vstd::prelude::*;

verus! {

/// Closed error taxonomy of the controller.
///
/// Modelled as a tagged variant so that every call site handles each kind
/// explicitly.  Recoverable conditions (conflicts, unmounted volumes, I/O
/// failures) are retried by the reconcile loop's backoff; `Conflict` is kept
/// distinct from `TxError` so that a deliberate transactional abort can be
/// told apart from a storage-layer failure.
#[derive(Debug, Clone, PartialEq, Eq)]
pub enum Error {
    /// The cluster API reported an error (constructed by the surrounding
    /// runtime, never by the verified core).
    KubeError(String),
    /// The named volume is not known to this controller instance.
    UnknownVolume(String),
    /// The named volume is not configured or its root directory is absent.
    VolumeNotMounted(String),
    /// A resource in the first namespace may not merge into the second
    /// volume: this controller instance serves a different namespace.
    Forbidden(String, String),
    /// The resource carries no namespace, so no owner key can be formed.
    ResourceIsNotNamespaced,
    /// A declared relative path is not a chain of plain name segments.
    FileName,
    /// A filesystem error during materialization (message only).
    Io(String),
    /// A requested file is already owned: the first field is the current
    /// owner key, the second the requesting owner key.
    Conflict(String, String),
    /// A stored ownership record could not be decoded.
    DbDataError,
    /// The persistent store itself failed, independent of any logical abort.
    TxError(String),
}

} // verus!
