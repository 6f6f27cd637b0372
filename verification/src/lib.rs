//! Ownership-aware file materialization engine for a multi-tenant volume
//! controller.
//!
//! Independently deployed resources each declare a set of files to be placed
//! on a shared volume.  The ledger in [`db`] tracks which resource owns which
//! file path and turns a new desired set into a minimal diff, aborting whole
//! transactions on conflict.  [`pvc_part`] validates a resource's declared
//! intent (allowed volume, serving namespace, path safety) and drives the
//! ledger; [`reconcile`] is the per-resource decision logic of the control
//! loop.  Filesystem and cluster-API side effects are supplied by the caller
//! through callbacks and are never performed here.
//!
//! The guarantees the engine is built around — mutual exclusion over
//! contended paths, idempotent convergence, exact diffing, and the delete
//! lifecycle — are stated and proved in [`laws`].

pub mod crd;
pub mod db;
pub mod errors;
pub mod laws;
pub mod opts;
pub mod pvc_part;
pub mod reconcile;
