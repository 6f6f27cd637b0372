use vstd::prelude::*;

use crate::db::Db;
use crate::db::lemma_filter_member;
use crate::db::not_in;

verus! {

broadcast use vstd::seq_lib::group_filter_ensures;

/// Overlap safety: while one owner's claim on a path stands committed, a
/// proposal by a different owner that desires the same path has a conflict.
/// By `Db::apply_changes`' contract such a proposal therefore aborts with
/// `Conflict` and leaves the ledger untouched: of two owners contending for
/// a path, at most the first to commit holds it.
pub proof fn lemma_overlapping_claim_conflicts(
    db: Db,
    holder: Seq<char>,
    requester: Seq<char>,
    p: Seq<char>,
    desired: Seq<Seq<char>>,
)
    requires
        db.files_map().contains_key(p),
        db.files_map()[p] == holder,
        holder != requester,
        desired.contains(p),
    ensures
        db.has_conflict(requester, desired),
{
    assert(desired.contains(p) && db.files_map().contains_key(p) && db.files_map()[p]
        != requester);
}

/// An owner whose desired paths are each unclaimed or already its own meets
/// no conflict, so its apply is not refused.
pub proof fn lemma_free_paths_no_conflict(db: Db, owner: Seq<char>, desired: Seq<Seq<char>>)
    requires
        forall|p: Seq<char>| #[trigger]
            desired.contains(p) && db.files_map().contains_key(p) ==> db.files_map()[p]
                == owner,
    ensures
        !db.has_conflict(owner, desired),
{
    if db.has_conflict(owner, desired) {
        let p = choose|p: Seq<char>| #[trigger]
            desired.contains(p) && db.files_map().contains_key(p) && db.files_map()[p]
                != owner;
        assert(desired.contains(p));
    }
}

/// Idempotence: a second apply of the same desired set for the same owner
/// finds no conflict, releases nothing (so the commit step performs no
/// spurious deletes), and leaves both ledger maps exactly as the first
/// apply left them.
pub proof fn lemma_apply_idempotent(
    db0: Db,
    db1: Db,
    db2: Db,
    owner: Seq<char>,
    desired: Seq<Seq<char>>,
)
    requires
        db0.wf(),
        !db0.has_conflict(owner, desired),
        db1.files_map() == db0.files_after_apply(owner, desired),
        db1.owners_map() == db0.owners_map().insert(owner, desired),
        db2.files_map() == db1.files_after_apply(owner, desired),
        db2.owners_map() == db1.owners_map().insert(owner, desired),
    ensures
        !db1.has_conflict(owner, desired),
        db1.removed_paths(owner, desired) == Seq::<Seq<char>>::empty(),
        db2.files_map() == db1.files_map(),
        db2.owners_map() == db1.owners_map(),
{
    if db1.has_conflict(owner, desired) {
        let p = choose|p: Seq<char>| #[trigger]
            desired.contains(p) && db1.files_map().contains_key(p) && db1.files_map()[p]
                != owner;
        assert(db0.files_after_apply(owner, desired)[p] == owner);
    }
    assert(db1.prev_paths(owner) == desired);
    let removed1 = db1.removed_paths(owner, desired);
    if removed1.len() > 0 {
        assert(removed1.contains(removed1[0]));
        lemma_filter_member(desired, not_in(desired), removed1[0]);
        assert(!desired.contains(removed1[0]));
    }
    assert(removed1 =~= Seq::<Seq<char>>::empty());
    assert forall|p: Seq<char>|
        db1.files_after_apply(owner, desired).contains_key(p) == db1.files_map().contains_key(
        p,
    ) by {
        if desired.contains(p) {
            assert(db0.files_after_apply(owner, desired).contains_key(p));
        }
    }
    assert forall|p: Seq<char>| #[trigger]
        db1.files_after_apply(owner, desired).contains_key(p) implies db1.files_after_apply(
        owner,
        desired,
    )[p] == db1.files_map()[p] by {
        if desired.contains(p) {
            assert(db0.files_after_apply(owner, desired)[p] == owner);
        }
    }
    assert(db1.files_after_apply(owner, desired) =~= db1.files_map());
    assert(db1.owners_map().contains_key(owner) && db1.owners_map()[owner] == desired);
    assert(db1.owners_map().insert(owner, desired) =~= db1.owners_map());
}

/// Diff correctness: a committed apply releases exactly the previously held
/// paths that are no longer desired; every desired path ends up claimed by
/// the owner; a released path ends up claimed by nobody; any path held by
/// another owner and not desired keeps its claim untouched; and the owner's
/// record becomes exactly the desired set.
pub proof fn lemma_diff_correct(db: Db, owner: Seq<char>, desired: Seq<Seq<char>>)
    requires
        db.wf(),
        !db.has_conflict(owner, desired),
    ensures
        forall|p: Seq<char>| #[trigger]
            db.removed_paths(owner, desired).contains(p) <==> (db.prev_paths(
                owner,
            ).contains(p) && !desired.contains(p)),
        forall|p: Seq<char>| #[trigger]
            desired.contains(p) ==> db.files_after_apply(owner, desired).contains_key(p)
                && db.files_after_apply(owner, desired)[p] == owner,
        forall|p: Seq<char>| #[trigger]
            db.removed_paths(owner, desired).contains(p) ==> !db.files_after_apply(
                owner,
                desired,
            ).contains_key(p),
        forall|p: Seq<char>|
            db.files_map().contains_key(p) && #[trigger] db.files_map()[p] != owner
                && !desired.contains(p) ==> db.files_after_apply(
                owner,
                desired,
            ).contains_key(p) && db.files_after_apply(owner, desired)[p] == db.files_map()[p],
        db.owners_map().insert(owner, desired)[owner] == desired,
{
    let prev = db.prev_paths(owner);
    assert forall|p: Seq<char>| #[trigger]
        db.removed_paths(owner, desired).contains(p) <==> (prev.contains(p)
            && !desired.contains(p)) by {
        if db.removed_paths(owner, desired).contains(p) {
            lemma_filter_member(prev, not_in(desired), p);
        }
        if prev.contains(p) && !desired.contains(p) {
            let j = choose|j: int| 0 <= j < prev.len() && prev[j] == p;
            assert(prev.filter(not_in(desired)).contains(prev[j]));
        }
    }
    assert forall|p: Seq<char>| #[trigger]
        db.removed_paths(owner, desired).contains(p) implies !db.files_after_apply(
        owner,
        desired,
    ).contains_key(p) by {
        lemma_filter_member(prev, not_in(desired), p);
    }
}

/// Delete lifecycle: releasing an owner frees exactly the paths it held.
/// Every path the owner's record listed stops being claimed; every claim of
/// a different owner survives with the same owner; no surviving claim names
/// the released owner; and the released owner's record is gone.
pub proof fn lemma_remove_exact(db: Db, owner: Seq<char>)
    requires
        db.wf(),
    ensures
        forall|p: Seq<char>| #[trigger]
            db.prev_paths(owner).contains(p) ==> !db.files_after_remove(
                owner,
            ).contains_key(p),
        forall|p: Seq<char>|
            db.files_map().contains_key(p) && #[trigger] db.files_map()[p] != owner
                ==> db.files_after_remove(owner).contains_key(p) && db.files_after_remove(
                owner,
            )[p] == db.files_map()[p],
        forall|p: Seq<char>| #[trigger]
            db.files_after_remove(owner).contains_key(p) ==> db.files_after_remove(owner)[p]
                != owner,
        !db.owners_map().remove(owner).contains_key(owner),
{
    assert forall|p: Seq<char>| #[trigger]
        db.prev_paths(owner).contains(p) implies !db.files_after_remove(
        owner,
    ).contains_key(p) by {
        assert(db.owners_map().contains_key(owner) && db.owners_map()[owner].contains(p));
        assert(db.files_map()[p] == owner);
    }
}

} // verus!
