use vstd::prelude::*;

verus! {

/// Declared desired state of one resource: the volume to merge into and a
/// mapping from relative file path to raw content.
///
/// The mapping is kept as a vector of `(path, content)` pairs; callers are
/// expected to hand in pairwise-distinct keys, as a mapping has by
/// construction.
#[derive(Debug, Clone, PartialEq, Eq)]
pub struct PvPartSpec {
    pub target_volume: String,
    pub files: Vec<(String, String)>,
}

/// Status of a resource's materialization.  The reconcile logic never writes
/// this back today; it is part of the declared schema nonetheless.
#[derive(Debug, Clone, PartialEq, Eq)]
pub enum PvPartStatus {
    Absent,
    Present,
}

/// The fields of a cluster resource that the reconcile decisions read:
/// its identity, whether it is marked for deletion, and its declared spec.
#[derive(Debug, Clone, PartialEq, Eq)]
pub struct PvPart {
    /// The namespace the resource was declared in, if any.
    pub namespace: Option<String>,
    pub name: String,
    /// True when the resource carries a deletion timestamp, i.e. is pending
    /// removal and only held back by the deletion-guard marker.
    pub has_deletion_timestamp: bool,
    pub spec: PvPartSpec,
}

} // verus!
