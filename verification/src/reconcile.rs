use vstd::prelude::*;

use crate::crd::PvPart;
use crate::errors::Error;

verus! {

/// Seconds until a successfully deployed resource is re-evaluated, so the
/// system converges again even with no new events.
pub const REQUEUE_SECONDS: u64 = 10;

/// Seconds until a failed reconciliation is retried; shorter than the
/// success-path interval.
pub const ERROR_REQUEUE_SECONDS: u64 = 5;

/// What one reconciliation pass decides to do with a resource.
#[derive(Debug, Clone, Copy, PartialEq, Eq, Structural)]
pub enum PvPartAction {
    /// Ensure the deletion-guard marker is present, then materialize files.
    Update,
    /// Tear the owned files down, then clear the deletion-guard marker.
    Delete,
    /// Reserved; unreachable by the current decision logic.
    NoOp,
}

/// When the surrounding loop should look at a resource again.
#[derive(Debug, Clone, Copy, PartialEq, Eq, Structural)]
pub enum Schedule {
    /// Re-evaluate after the given number of seconds.
    RequeueSecs(u64),
    /// No active scheduling: wait for the next external event.
    AwaitChange,
}

/// Decide a resource's fate from its observed state: a resource pending
/// removal is torn down, any other is (re-)deployed.
pub fn determine_action(pv_part: &PvPart) -> (a: PvPartAction)
    ensures
        a == (if pv_part.has_deletion_timestamp {
            PvPartAction::Delete
        } else {
            PvPartAction::Update
        }),
{
    if pv_part.has_deletion_timestamp {
        PvPartAction::Delete
    } else {
        PvPartAction::Update
    }
}

/// The decision core of one reconciliation pass: a resource without a
/// namespace cannot form an owner key and is rejected; otherwise the action
/// is chosen by [`determine_action`].
pub fn reconcile_plan(pv_part: &PvPart) -> (r: Result<PvPartAction, Error>)
    ensures
        match r {
            Ok(a) => pv_part.namespace is Some && a == (if pv_part.has_deletion_timestamp {
                PvPartAction::Delete
            } else {
                PvPartAction::Update
            }),
            Err(e) => pv_part.namespace is None && e == Error::ResourceIsNotNamespaced,
        },
{
    if pv_part.namespace.is_some() {
        Ok(determine_action(pv_part))
    } else {
        Err(Error::ResourceIsNotNamespaced)
    }
}

/// How to schedule after a pass that succeeded: an update self-heals on a
/// fixed interval; after a completed teardown only an external event can
/// bring new work.
pub fn schedule_on_success(action: &PvPartAction) -> (s: Schedule)
    ensures
        s == (match action {
            PvPartAction::Update => Schedule::RequeueSecs(REQUEUE_SECONDS),
            PvPartAction::Delete => Schedule::AwaitChange,
            PvPartAction::NoOp => Schedule::RequeueSecs(REQUEUE_SECONDS),
        }),
{
    match action {
        PvPartAction::Update => Schedule::RequeueSecs(REQUEUE_SECONDS),
        PvPartAction::Delete => Schedule::AwaitChange,
        PvPartAction::NoOp => Schedule::RequeueSecs(REQUEUE_SECONDS),
    }
}

/// How to schedule after a pass that failed: retry on the shorter backoff,
/// whatever the error kind.  Expected error kinds never escalate.
pub fn schedule_on_error(_error: &Error) -> (s: Schedule)
    ensures
        s == Schedule::RequeueSecs(ERROR_REQUEUE_SECONDS),
{
    Schedule::RequeueSecs(ERROR_REQUEUE_SECONDS)
}

} // verus!
