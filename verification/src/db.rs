use vstd::prelude::*;
use vstd::seq_lib::*;
use vstd::string::*;

use crate::errors::Error;

verus! {

broadcast use vstd::seq_lib::group_filter_ensures;

// ---------------------------------------------------------------------------
// Association lists over string keys: the ledger's stored form.
// ---------------------------------------------------------------------------

/// Whether the association list holds the key.
pub open spec fn assoc_has_key<V>(s: Seq<(String, V)>, k: Seq<char>) -> bool {
    exists|i: int| 0 <= i < s.len() && s[i].0@ == k
}

/// An index at which the association list holds the key.
pub open spec fn assoc_index_of<V>(s: Seq<(String, V)>, k: Seq<char>) -> int {
    choose|i: int| 0 <= i < s.len() && s[i].0@ == k
}

/// The mathematical mapping an association list stands for.
pub open spec fn assoc_map<V: DeepView>(s: Seq<(String, V)>) -> Map<Seq<char>, V::V> {
    Map::new(
        |k: Seq<char>| assoc_has_key(s, k),
        |k: Seq<char>| s[assoc_index_of(s, k)].1.deep_view(),
    )
}

/// No key occurs twice.
pub open spec fn keys_unique<V>(s: Seq<(String, V)>) -> bool {
    forall|i: int, j: int| 0 <= i < j < s.len() ==> s[i].0@ != s[j].0@
}

/// No path occurs twice.
pub open spec fn seq_unique(s: Seq<Seq<char>>) -> bool {
    forall|i: int, j: int| 0 <= i < j < s.len() ==> s[i] != s[j]
}

/// With unique keys, the entry at any index is what the mapping says.
pub proof fn lemma_assoc_at<V: DeepView>(s: Seq<(String, V)>, i: int)
    requires
        keys_unique(s),
        0 <= i < s.len(),
    ensures
        assoc_map(s).contains_key(s[i].0@),
        assoc_map(s)[s[i].0@] == s[i].1.deep_view(),
{
    let k = s[i].0@;
    assert(assoc_has_key(s, k));
    let j = assoc_index_of(s, k);
    assert(0 <= j < s.len() && s[j].0@ == k);
    if j < i {
        assert(s[j].0@ != s[i].0@);
    } else if i < j {
        assert(s[i].0@ != s[j].0@);
    }
}

/// A member of a filtered sequence is a member of the source that satisfies
/// the predicate.
pub proof fn lemma_filter_member<A>(s: Seq<A>, pred: spec_fn(A) -> bool, x: A)
    requires
        s.filter(pred).contains(x),
    ensures
        s.contains(x),
        pred(x),
    decreases s.len(),
{
    reveal(Seq::filter);
    if s.len() > 0 {
        if pred(s.last()) && x == s.last() {
            assert(s.contains(x)) by {
                assert(s[s.len() - 1] == x);
            }
        } else {
            assert(s.drop_last().filter(pred).contains(x)) by {
                if pred(s.last()) {
                    let j = choose|j: int|
                        0 <= j < s.filter(pred).len() && s.filter(pred)[j] == x;
                    assert(s.filter(pred)[j] == s.drop_last().filter(pred).push(s.last())[j]);
                }
            }
            lemma_filter_member(s.drop_last(), pred, x);
            let j = choose|j: int| 0 <= j < s.drop_last().len() && s.drop_last()[j] == x;
            assert(s[j] == x);
        }
    }
}

// ---------------------------------------------------------------------------
// Executable association-list operations.
// ---------------------------------------------------------------------------

/// Look a key up.
fn assoc_get<'a, V: DeepView>(s: &'a Vec<(String, V)>, k: &String) -> (r: Option<&'a V>)
    requires
        keys_unique(s@),
    ensures
        match r {
            Some(v) => assoc_map(s@).contains_key(k@) && v.deep_view() == assoc_map(s@)[k@],
            None => !assoc_map(s@).contains_key(k@),
        },
{
    let n: usize = s.len();
    let mut i: usize = 0;
    while i < n
        invariant
            n == s.len(),
            0 <= i <= n,
            keys_unique(s@),
            forall|j: int| 0 <= j < i ==> s@[j].0@ != k@,
        decreases n - i,
    {
        if s[i].0.eq(k) {
            proof {
                lemma_assoc_at(s@, i as int);
            }
            return Some(&s[i].1);
        }
        i += 1;
    }
    proof {
        if assoc_has_key(s@, k@) {
            let j = choose|j: int| 0 <= j < s@.len() && s@[j].0@ == k@;
            assert(s@[j].0@ != k@);
        }
    }
    None
}

/// Take a key out; without the key the list is unchanged.
fn assoc_remove<V: DeepView>(s: &mut Vec<(String, V)>, k: &String)
    requires
        keys_unique(old(s)@),
    ensures
        keys_unique(final(s)@),
        assoc_map(final(s)@) == assoc_map(old(s)@).remove(k@),
{
    let n: usize = s.len();
    let mut i: usize = 0;
    while i < n
        invariant
            n == s.len(),
            0 <= i <= n,
            *s == *old(s),
            keys_unique(s@),
            forall|j: int| 0 <= j < i ==> s@[j].0@ != k@,
        decreases n - i,
    {
        if s[i].0.eq(k) {
            let ghost s0 = s@;
            let ghost ii = i as int;
            let _ = s.remove(i);
            proof {
                let t = s@;
                assert(t == s0.remove(ii));
                assert forall|a: int, b: int| 0 <= a < b < t.len() implies t[a].0@ != t[b].0@ by {
                    let a0 = if a < ii { a } else { a + 1 };
                    let b0 = if b < ii { b } else { b + 1 };
                    assert(t[a] == s0[a0] && t[b] == s0[b0]);
                }
                assert forall|q: Seq<char>|
                    assoc_map(t).contains_key(q)
                        == assoc_map(s0).remove(k@).contains_key(q) by {
                    if assoc_has_key(t, q) {
                        let a = choose|a: int| 0 <= a < t.len() && t[a].0@ == q;
                        let a0 = if a < ii { a } else { a + 1 };
                        assert(t[a] == s0[a0]);
                        assert(assoc_has_key(s0, q));
                        if q == k@ {
                            if a0 < ii {
                                assert(s0[a0].0@ != s0[ii].0@);
                            } else {
                                assert(s0[ii].0@ != s0[a0].0@);
                            }
                        }
                    }
                    if assoc_has_key(s0, q) && q != k@ {
                        let a0 = choose|a0: int| 0 <= a0 < s0.len() && s0[a0].0@ == q;
                        let a = if a0 < ii { a0 } else { a0 - 1 };
                        assert(a0 != ii);
                        assert(t[a] == s0[a0]);
                        assert(assoc_has_key(t, q));
                    }
                }
                assert forall|q: Seq<char>| #[trigger] assoc_map(t).contains_key(q) implies
                    assoc_map(t)[q] == assoc_map(s0).remove(k@)[q] by {
                    let a = choose|a: int| 0 <= a < t.len() && t[a].0@ == q;
                    let a0 = if a < ii { a } else { a + 1 };
                    assert(t[a] == s0[a0]);
                    lemma_assoc_at(t, a);
                    lemma_assoc_at(s0, a0);
                }
                assert(assoc_map(t) =~= assoc_map(s0).remove(k@));
            }
            return;
        }
        i += 1;
    }
    proof {
        if assoc_has_key(s@, k@) {
            let j = choose|j: int| 0 <= j < s@.len() && s@[j].0@ == k@;
            assert(s@[j].0@ != k@);
        }
        assert(assoc_map(s@) =~= assoc_map(s@).remove(k@));
    }
}

/// Add a binding for a key that is not yet present.
fn assoc_insert<V: DeepView>(s: &mut Vec<(String, V)>, k: String, v: V)
    requires
        keys_unique(old(s)@),
        !assoc_has_key(old(s)@, k@),
    ensures
        keys_unique(final(s)@),
        assoc_map(final(s)@) == assoc_map(old(s)@).insert(k@, v.deep_view()),
{
    let ghost s0 = s@;
    let ghost kv = k@;
    let ghost vv = v.deep_view();
    s.push((k, v));
    proof {
        let t = s@;
        let last = t.len() - 1;
        assert(t == s0.push(t[last]));
        assert(t[last].0@ == kv && t[last].1.deep_view() == vv);
        assert forall|a: int, b: int| 0 <= a < b < t.len() implies t[a].0@ != t[b].0@ by {
            if b < last {
                assert(t[a] == s0[a] && t[b] == s0[b]);
            } else {
                assert(t[a] == s0[a]);
                if t[a].0@ == kv {
                    assert(assoc_has_key(s0, kv));
                }
            }
        }
        assert forall|q: Seq<char>|
            assoc_map(t).contains_key(q) == assoc_map(s0).insert(kv, vv).contains_key(q) by {
            if assoc_has_key(t, q) && q != kv {
                let a = choose|a: int| 0 <= a < t.len() && t[a].0@ == q;
                assert(a != last);
                assert(t[a] == s0[a]);
                assert(assoc_has_key(s0, q));
            }
            if assoc_has_key(s0, q) {
                let a = choose|a: int| 0 <= a < s0.len() && s0[a].0@ == q;
                assert(t[a] == s0[a]);
                assert(assoc_has_key(t, q));
            }
            if q == kv {
                assert(assoc_has_key(t, q));
            }
        }
        assert forall|q: Seq<char>| #[trigger] assoc_map(t).contains_key(q) implies
            assoc_map(t)[q] == assoc_map(s0).insert(kv, vv)[q] by {
            lemma_assoc_at(t, last);
            if q != kv {
                let a = choose|a: int| 0 <= a < t.len() && t[a].0@ == q;
                assert(a != last);
                assert(t[a] == s0[a]);
                lemma_assoc_at(t, a);
                lemma_assoc_at(s0, a);
            }
        }
        assert(assoc_map(t) =~= assoc_map(s0).insert(kv, vv));
    }
}

/// Whether a vector of strings holds the given string.
pub(crate) fn contains_string(v: &Vec<String>, x: &String) -> (r: bool)
    ensures
        r == v.deep_view().contains(x@),
{
    let n: usize = v.len();
    let mut i: usize = 0;
    while i < n
        invariant
            n == v.len(),
            0 <= i <= n,
            forall|j: int| 0 <= j < i ==> v@[j]@ != x@,
        decreases n - i,
    {
        if v[i].eq(x) {
            assert(v.deep_view()[i as int] == x@);
            return true;
        }
        i += 1;
    }
    assert forall|j: int| 0 <= j < v.deep_view().len() implies v.deep_view()[j] != x@ by {
        assert(v.deep_view()[j] == v@[j]@);
    }
    false
}

/// An element-wise copy of a vector of strings.
fn clone_string_vec(v: &Vec<String>) -> (r: Vec<String>)
    ensures
        r@ == v@,
        r.deep_view() == v.deep_view(),
{
    let n: usize = v.len();
    let mut r: Vec<String> = Vec::new();
    let mut i: usize = 0;
    while i < n
        invariant
            n == v.len(),
            0 <= i <= n,
            r@.len() == i,
            forall|j: int| 0 <= j < i ==> r@[j] == v@[j],
        decreases n - i,
    {
        r.push(v[i].clone());
        i += 1;
    }
    proof {
        assert(r@ =~= v@);
        assert(r.deep_view() =~= v.deep_view());
    }
    r
}

// ---------------------------------------------------------------------------
// Owner keys.
// ---------------------------------------------------------------------------

/// The single string under which an owner's record is kept.
pub open spec fn owner_key_spec(namespace: Seq<char>, name: Seq<char>) -> Seq<char> {
    "owner:"@ + namespace + "/"@ + name
}

/// Serialize an owner identity (namespace, name) into its ledger key.
pub fn owner_key(namespace: &String, name: &String) -> (r: String)
    ensures
        r@ == owner_key_spec(namespace@, name@),
{
    let mut r: String = "owner:".to_owned();
    r.append(namespace.as_str());
    r.append("/");
    r.append(name.as_str());
    r
}

// ---------------------------------------------------------------------------
// The ownership ledger.
// ---------------------------------------------------------------------------

/// The predicate "not a member of this path set".
pub open spec fn not_in(desired: Seq<Seq<char>>) -> spec_fn(Seq<char>) -> bool {
    |p: Seq<char>| !desired.contains(p)
}

/// A path-claim map with the claims for a prefix of `gone` taken out.
spec fn map_minus_prefix(
    files0: Map<Seq<char>, Seq<char>>,
    gone: Seq<Seq<char>>,
    k: int,
) -> Map<Seq<char>, Seq<char>> {
    Map::new(
        |p: Seq<char>| files0.contains_key(p) && !(exists|j: int| 0 <= j < k && gone[j] == p),
        |p: Seq<char>| files0[p],
    )
}

/// A path-claim map part way through committing a desired set: released
/// paths are gone and a prefix of the newly added paths is already claimed.
spec fn files_mid_apply(
    files0: Map<Seq<char>, Seq<char>>,
    prev: Seq<Seq<char>>,
    desired: Seq<Seq<char>>,
    owner: Seq<char>,
    k: int,
) -> Map<Seq<char>, Seq<char>> {
    Map::new(
        |p: Seq<char>| (files0.contains_key(p) && !(prev.contains(p) && !desired.contains(p)))
            || (exists|j: int| 0 <= j < k && desired[j] == p && !prev.contains(p)),
        |p: Seq<char>| if exists|j: int| 0 <= j < k && desired[j] == p && !prev.contains(p) {
            owner
        } else {
            files0[p]
        },
    )
}

/// Transactional mapping from file path to owning resource and from owner to
/// its current file set.
///
/// Both directions are kept coherent: a path is attributed to an owner
/// exactly when the owner's record lists it, so no two owners can ever hold
/// the same path.  Releasing an owner also clears its record, so no stale
/// record can later feed a diff with paths the owner no longer holds.
pub struct Db {
    pub files: Vec<(String, String)>,
    pub owners: Vec<(String, Vec<String>)>,
}

impl Db {
    /// The committed claim per file path: which owner key holds it.
    pub open spec fn files_map(self) -> Map<Seq<char>, Seq<char>> {
        assoc_map(self.files@)
    }

    /// The committed record per owner key: the paths it holds.
    pub open spec fn owners_map(self) -> Map<Seq<char>, Seq<Seq<char>>> {
        assoc_map(self.owners@)
    }

    /// Well-formedness: unique stored keys, duplicate-free records, and the
    /// two directions of the ownership relation agreeing with each other.
    pub open spec fn wf(self) -> bool {
        &&& keys_unique(self.files@)
        &&& keys_unique(self.owners@)
        &&& forall|o: Seq<char>| #[trigger]
            self.owners_map().contains_key(o) ==> seq_unique(self.owners_map()[o])
        &&& forall|o: Seq<char>, p: Seq<char>|
            self.owners_map().contains_key(o) && #[trigger] self.owners_map()[o].contains(p)
                ==> self.files_map().contains_key(p) && self.files_map()[p] == o
        &&& forall|p: Seq<char>| #[trigger]
            self.files_map().contains_key(p) ==> self.owners_map().contains_key(
                self.files_map()[p],
            ) && self.owners_map()[self.files_map()[p]].contains(p)
    }

    /// The paths recorded for an owner; empty without a record.
    pub open spec fn prev_paths(self, owner: Seq<char>) -> Seq<Seq<char>> {
        if self.owners_map().contains_key(owner) {
            self.owners_map()[owner]
        } else {
            Seq::<Seq<char>>::empty()
        }
    }

    /// The paths a new desired set releases: previously held, not desired.
    pub open spec fn removed_paths(self, owner: Seq<char>, desired: Seq<Seq<char>>) -> Seq<
        Seq<char>,
    > {
        self.prev_paths(owner).filter(not_in(desired))
    }

    /// Whether some desired path is already claimed by a different owner.
    pub open spec fn has_conflict(self, owner: Seq<char>, desired: Seq<Seq<char>>) -> bool {
        exists|p: Seq<char>| #[trigger]
            desired.contains(p) && self.files_map().contains_key(p) && self.files_map()[p]
                != owner
    }

    /// The path claims after an owner commits a desired set: every desired
    /// path is the owner's, released paths are gone, all else is untouched.
    pub open spec fn files_after_apply(self, owner: Seq<char>, desired: Seq<Seq<char>>) -> Map<
        Seq<char>,
        Seq<char>,
    > {
        Map::new(
            |p: Seq<char>|
                desired.contains(p) || (self.files_map().contains_key(p) && !(
                self.prev_paths(owner).contains(p) && !desired.contains(p))),
            |p: Seq<char>| if desired.contains(p) {
                owner
            } else {
                self.files_map()[p]
            },
        )
    }

    /// The path claims after an owner is released: exactly the entries of
    /// every other owner survive.
    pub open spec fn files_after_remove(self, owner: Seq<char>) -> Map<Seq<char>, Seq<char>> {
        Map::new(
            |p: Seq<char>| self.files_map().contains_key(p) && self.files_map()[p] != owner,
            |p: Seq<char>| self.files_map()[p],
        )
    }

    /// An empty ledger.
    pub fn new() -> (r: Db)
        ensures
            r.wf(),
            r.files_map() == Map::<Seq<char>, Seq<char>>::empty(),
            r.owners_map() == Map::<Seq<char>, Seq<Seq<char>>>::empty(),
    {
        let r = Db { files: Vec::new(), owners: Vec::new() };
        proof {
            assert forall|k: Seq<char>| !assoc_has_key(r.files@, k) by {
                if assoc_has_key(r.files@, k) {
                    let j = choose|j: int| 0 <= j < r.files@.len() && r.files@[j].0@ == k;
                }
            }
            assert forall|k: Seq<char>| !assoc_has_key(r.owners@, k) by {
                if assoc_has_key(r.owners@, k) {
                    let j = choose|j: int| 0 <= j < r.owners@.len() && r.owners@[j].0@ == k;
                }
            }
            assert(r.files_map() =~= Map::<Seq<char>, Seq<char>>::empty());
            assert(r.owners_map() =~= Map::<Seq<char>, Seq<Seq<char>>>::empty());
        }
        r
    }

    /// Propose a new desired path set for an owner, transactionally.
    ///
    /// If any desired path is claimed by a different owner, the whole
    /// operation aborts with `Conflict` and nothing changes.  Otherwise the
    /// released paths (previously held, no longer desired) are handed to the
    /// caller's commit step `f`; if `f` fails, the whole operation aborts
    /// with `f`'s error and nothing changes.  Only when `f` succeeds are the
    /// claims updated: released paths are freed, desired paths are claimed,
    /// and the owner's record becomes exactly the desired set.
    pub fn apply_changes<F: Fn(Vec<String>) -> Result<(), Error>>(
        &mut self,
        owner_namespace: &String,
        owner_name: &String,
        target_paths: &Vec<String>,
        f: F,
    ) -> (r: Result<(), Error>)
        requires
            old(self).wf(),
            seq_unique(target_paths.deep_view()),
            forall|v: Vec<String>| #[trigger] call_requires(f, (v,)),
        ensures
            final(self).wf(),
            ({
                let owner = owner_key_spec(owner_namespace@, owner_name@);
                let desired = target_paths.deep_view();
                match r {
                    Ok(()) => {
                        &&& !old(self).has_conflict(owner, desired)
                        &&& final(self).files_map() == old(self).files_after_apply(
                            owner,
                            desired,
                        )
                        &&& final(self).owners_map() == old(self).owners_map().insert(
                            owner,
                            desired,
                        )
                        &&& exists|rv: Vec<String>|
                            rv.deep_view() == old(self).removed_paths(owner, desired)
                                && #[trigger] call_ensures(f, (rv,), Ok::<(), Error>(()))
                    },
                    Err(e) => {
                        &&& *final(self) == *old(self)
                        &&& old(self).has_conflict(owner, desired) ==> (e matches Error::Conflict(
                            cur,
                            req,
                        ) && req@ == owner && cur@ != owner && (exists|p: Seq<char>| #[trigger]
                            desired.contains(p) && old(self).files_map().contains_key(p)
                                && old(self).files_map()[p] == cur@))
                        &&& !old(self).has_conflict(owner, desired) ==> (exists|rv: Vec<String>|
                            rv.deep_view() == old(self).removed_paths(owner, desired)
                                && #[trigger] call_ensures(f, (rv,), Err::<(), Error>(e)))
                    },
                }
            }),
    {
        let owner = owner_key(owner_namespace, owner_name);
        let ghost owner_s = owner@;
        let ghost desired = target_paths.deep_view();
        let ghost db0 = *old(self);

        // Validate ownership of every requested path before anything else.
        let nt: usize = target_paths.len();
        let mut i: usize = 0;
        while i < nt
            invariant
                nt == target_paths.len(),
                0 <= i <= nt,
                *self == db0,
                db0 == *old(self),
                db0.wf(),
                owner_s == owner@,
                owner_s == owner_key_spec(owner_namespace@, owner_name@),
                desired == target_paths.deep_view(),
                forall|j: int|
                    0 <= j < i ==> !(db0.files_map().contains_key(#[trigger] desired[j])
                        && db0.files_map()[desired[j]] != owner_s),
            decreases nt - i,
        {
            if let Some(cur) = assoc_get(&self.files, &target_paths[i]) {
                if !cur.eq(&owner) {
                    let current_owner = cur.clone();
                    proof {
                        assert(desired[i as int] == target_paths@[i as int]@);
                        assert(desired.contains(desired[i as int]));
                        assert(db0.has_conflict(owner_s, desired));
                    }
                    return Err(Error::Conflict(current_owner, owner));
                }
            }
            i += 1;
        }
        proof {
            if db0.has_conflict(owner_s, desired) {
                let p = choose|p: Seq<char>|
                    desired.contains(p) && db0.files_map().contains_key(p)
                        && db0.files_map()[p] != owner_s;
                let j = choose|j: int| 0 <= j < desired.len() && desired[j] == p;
                assert(!(db0.files_map().contains_key(desired[j])
                    && db0.files_map()[desired[j]] != owner_s));
            }
        }

        // Load the previous record and compute the released paths.
        let prev: Vec<String> = match assoc_get(&self.owners, &owner) {
            Some(v) => clone_string_vec(v),
            None => Vec::new(),
        };
        proof {
            if db0.owners_map().contains_key(owner_s) {
                assert(prev.deep_view() == db0.prev_paths(owner_s));
            } else {
                assert(prev.deep_view() =~= db0.prev_paths(owner_s));
            }
        }
        let ghost prevd = db0.prev_paths(owner_s);

        let mut removed: Vec<String> = Vec::new();
        proof {
            assert(removed.deep_view() =~= prevd.subrange(0, 0).filter(not_in(desired)))
                by {
                reveal(Seq::filter);
                assert(prevd.subrange(0, 0) =~= Seq::<Seq<char>>::empty());
            }
        }
        let np: usize = prev.len();
        let mut k: usize = 0;
        while k < np
            invariant
                np == prev.len(),
                0 <= k <= np,
                prevd == prev.deep_view(),
                desired == target_paths.deep_view(),
                removed.deep_view() == prevd.subrange(0, k as int).filter(not_in(desired)),
            decreases np - k,
        {
            let ghost removed0 = removed.deep_view();
            if !contains_string(target_paths, &prev[k]) {
                removed.push(prev[k].clone());
                proof {
                    assert(removed.deep_view() =~= removed0.push(prevd[k as int]));
                }
            }
            proof {
                reveal_with_fuel(Seq::filter, 2);
                let single = seq![prevd[k as int]];
                let pred = not_in(desired);
                assert(prevd.subrange(0, k as int + 1) =~= prevd.subrange(0, k as int)
                    + single);
                Seq::filter_distributes_over_add(prevd.subrange(0, k as int), single, pred);
                assert(single.drop_last() =~= Seq::<Seq<char>>::empty());
                assert(Seq::<Seq<char>>::empty().filter(pred) =~= Seq::<Seq<char>>::empty());
                assert(single.last() == prevd[k as int]);
                if !desired.contains(prevd[k as int]) {
                    assert(pred(single.last()));
                    assert(single.filter(pred) =~= Seq::<Seq<char>>::empty().push(
                        prevd[k as int],
                    ));
                    assert(removed0 + single.filter(pred) =~= removed0.push(prevd[k as int]));
                } else {
                    assert(!pred(single.last()));
                    assert(single.filter(pred) =~= Seq::<Seq<char>>::empty());
                    assert(removed0 + single.filter(pred) =~= removed0);
                }
                assert(removed.deep_view() =~= prevd.subrange(0, k as int + 1).filter(
                    not_in(desired),
                ));
            }
            k += 1;
        }
        proof {
            assert(prevd.subrange(0, np as int) =~= prevd);
            assert(removed.deep_view() == db0.removed_paths(owner_s, desired));
        }

        // Run the caller's commit step before touching any state: a failure
        // must leave the ledger exactly as it was.
        let removed_arg = clone_string_vec(&removed);
        let ghost rv_snap = removed_arg;
        let res = f(removed_arg);
        match res {
            Err(e) => {
                proof {
                    assert(res == Err::<(), Error>(e));
                    assert(rv_snap.deep_view() == db0.removed_paths(owner_s, desired));
                    assert(call_ensures(f, (rv_snap,), Err::<(), Error>(e)));
                }
                return Err(e);
            },
            Ok(u) => {
                proof {
                    assert(res == Ok::<(), Error>(u));
                    assert(u == ());
                    assert(rv_snap.deep_view() == db0.removed_paths(owner_s, desired));
                    assert(call_ensures(f, (rv_snap,), Ok::<(), Error>(())));
                }
            },
        }

        // Commit: free the released claims.
        let ghost files0 = db0.files_map();
        let ghost rdv = removed.deep_view();
        proof {
            assert(self.files_map() =~= map_minus_prefix(files0, rdv, 0));
        }
        let nr: usize = removed.len();
        let mut k2: usize = 0;
        while k2 < nr
            invariant
                nr == removed.len(),
                0 <= k2 <= nr,
                rdv == removed.deep_view(),
                keys_unique(self.files@),
                self.owners@ == db0.owners@,
                self.files_map() == map_minus_prefix(files0, rdv, k2 as int),
            decreases nr - k2,
        {
            assoc_remove(&mut self.files, &removed[k2]);
            proof {
                assert(map_minus_prefix(files0, rdv, k2 as int).remove(rdv[k2 as int])
                    =~= map_minus_prefix(files0, rdv, k2 as int + 1));
            }
            k2 += 1;
        }
        proof {
            assert forall|q: Seq<char>|
                rdv.contains(q) == (prevd.contains(q) && !desired.contains(q)) by {
                if rdv.contains(q) {
                    lemma_filter_member(prevd, not_in(desired), q);
                }
                if prevd.contains(q) && !desired.contains(q) {
                    let j = choose|j: int| 0 <= j < prevd.len() && prevd[j] == q;
                    assert(prevd.filter(not_in(desired)).contains(prevd[j]));
                }
            }
            assert(map_minus_prefix(files0, rdv, nr as int) =~= files_mid_apply(
                files0,
                prevd,
                desired,
                owner_s,
                0,
            ));
        }

        // Commit: claim the newly added paths.
        let mut k3: usize = 0;
        while k3 < nt
            invariant
                nt == target_paths.len(),
                0 <= k3 <= nt,
                desired == target_paths.deep_view(),
                prevd == prev.deep_view(),
                prevd == db0.prev_paths(owner_s),
                db0 == *old(self),
                db0.wf(),
                !db0.has_conflict(owner_s, desired),
                seq_unique(desired),
                owner_s == owner@,
                keys_unique(self.files@),
                self.owners@ == db0.owners@,
                self.files_map() == files_mid_apply(db0.files_map(), prevd, desired, owner_s, k3 as int),
            decreases nt - k3,
        {
            let ghost fmid = self.files_map();
            if !contains_string(&prev, &target_paths[k3]) {
                proof {
                    let q = desired[k3 as int];
                    assert(desired.contains(q));
                    if db0.files_map().contains_key(q) {
                        if db0.files_map()[q] != owner_s {
                            assert(db0.has_conflict(owner_s, desired));
                        } else {
                            assert(db0.owners_map().contains_key(owner_s)
                                && db0.owners_map()[owner_s].contains(q));
                            assert(prevd.contains(q));
                        }
                    }
                    assert(!fmid.contains_key(q));
                }
                assoc_insert(&mut self.files, target_paths[k3].clone(), owner.clone());
                proof {
                    assert(fmid.insert(desired[k3 as int], owner_s) =~= files_mid_apply(
                        db0.files_map(),
                        prevd,
                        desired,
                        owner_s,
                        k3 as int + 1,
                    ));
                }
            } else {
                proof {
                    assert(fmid =~= files_mid_apply(
                        db0.files_map(),
                        prevd,
                        desired,
                        owner_s,
                        k3 as int + 1,
                    ));
                }
            }
            k3 += 1;
        }
        proof {
            let fafter = db0.files_after_apply(owner_s, desired);
            assert forall|p: Seq<char>|
                desired.contains(p) && prevd.contains(p) implies db0.files_map().contains_key(
                p,
            ) && db0.files_map()[p] == owner_s by {
                assert(db0.owners_map().contains_key(owner_s));
                assert(db0.owners_map()[owner_s].contains(p));
            }
            assert forall|p: Seq<char>|
                desired.contains(p) implies (exists|j: int|
                0 <= j < desired.len() && desired[j] == p && !prevd.contains(p))
                || prevd.contains(p) by {
                if !prevd.contains(p) {
                    let j = choose|j: int| 0 <= j < desired.len() && desired[j] == p;
                    assert(0 <= j < desired.len() && desired[j] == p && !prevd.contains(p));
                }
            }
            assert(files_mid_apply(db0.files_map(), prevd, desired, owner_s, nt as int)
                =~= fafter);
        }

        // Commit: the owner's record becomes exactly the desired set.
        assoc_remove(&mut self.owners, &owner);
        proof {
            assert(assoc_map(self.owners@) == assoc_map(db0.owners@).remove(owner_s));
            assert(!assoc_map(self.owners@).contains_key(owner_s));
            assert(!assoc_has_key(self.owners@, owner_s));
        }
        let target_copy = clone_string_vec(target_paths);
        assoc_insert(&mut self.owners, owner, target_copy);
        proof {
            assert(self.owners_map() =~= db0.owners_map().insert(owner_s, desired));
            let fafter = db0.files_after_apply(owner_s, desired);
            let oafter = db0.owners_map().insert(owner_s, desired);
            // Well-formedness of the committed state.
            assert forall|o: Seq<char>| #[trigger]
                oafter.contains_key(o) implies seq_unique(oafter[o]) by {
                if o != owner_s {
                    assert(db0.owners_map().contains_key(o));
                }
            }
            assert forall|o: Seq<char>, p: Seq<char>|
                oafter.contains_key(o) && #[trigger] oafter[o].contains(p) implies
                fafter.contains_key(p) && fafter[p] == o by {
                if o == owner_s {
                    assert(desired.contains(p));
                } else {
                    assert(db0.owners_map().contains_key(o)
                        && db0.owners_map()[o].contains(p));
                    assert(db0.files_map().contains_key(p) && db0.files_map()[p] == o);
                    if prevd.contains(p) {
                        assert(db0.owners_map().contains_key(owner_s)
                            && db0.owners_map()[owner_s].contains(p));
                        assert(db0.files_map()[p] == owner_s);
                    }
                    if desired.contains(p) {
                        assert(db0.has_conflict(owner_s, desired));
                    }
                }
            }
            assert forall|p: Seq<char>| #[trigger] fafter.contains_key(p) implies
                oafter.contains_key(fafter[p]) && oafter[fafter[p]].contains(p) by {
                if desired.contains(p) {
                    assert(fafter[p] == owner_s);
                } else {
                    assert(db0.files_map().contains_key(p));
                    let o = db0.files_map()[p];
                    assert(db0.owners_map().contains_key(o)
                        && db0.owners_map()[o].contains(p));
                    if o == owner_s {
                        assert(prevd.contains(p));
                        assert(!fafter.contains_key(p));
                    }
                }
            }
        }
        Ok(())
    }

    /// Release everything an owner holds, transactionally.
    ///
    /// The owner's full recorded path list is handed to the caller's commit
    /// step `f`; if `f` fails, nothing changes.  When `f` succeeds the
    /// ledger stops attributing those paths to anyone and the owner's record
    /// is cleared, so a later diff can never act on stale paths.
    pub fn remove<F: Fn(Vec<String>) -> Result<(), Error>>(
        &mut self,
        owner_namespace: &String,
        owner_name: &String,
        f: F,
    ) -> (r: Result<(), Error>)
        requires
            old(self).wf(),
            forall|v: Vec<String>| #[trigger] call_requires(f, (v,)),
        ensures
            final(self).wf(),
            ({
                let owner = owner_key_spec(owner_namespace@, owner_name@);
                match r {
                    Ok(()) => {
                        &&& final(self).files_map() == old(self).files_after_remove(owner)
                        &&& final(self).owners_map() == old(self).owners_map().remove(owner)
                        &&& exists|rv: Vec<String>|
                            rv.deep_view() == old(self).prev_paths(owner)
                                && #[trigger] call_ensures(f, (rv,), Ok::<(), Error>(()))
                    },
                    Err(e) => {
                        &&& *final(self) == *old(self)
                        &&& exists|rv: Vec<String>|
                            rv.deep_view() == old(self).prev_paths(owner)
                                && #[trigger] call_ensures(f, (rv,), Err::<(), Error>(e))
                    },
                }
            }),
    {
        let owner = owner_key(owner_namespace, owner_name);
        let ghost owner_s = owner@;
        let ghost db0 = *old(self);

        let prev: Vec<String> = match assoc_get(&self.owners, &owner) {
            Some(v) => clone_string_vec(v),
            None => Vec::new(),
        };
        proof {
            if db0.owners_map().contains_key(owner_s) {
                assert(prev.deep_view() == db0.prev_paths(owner_s));
            } else {
                assert(prev.deep_view() =~= db0.prev_paths(owner_s));
            }
        }
        let ghost prevd = db0.prev_paths(owner_s);

        // Run the caller's release step; a failure aborts the transaction.
        let prev_arg = clone_string_vec(&prev);
        let ghost rv_snap = prev_arg;
        let res = f(prev_arg);
        match res {
            Err(e) => {
                proof {
                    assert(res == Err::<(), Error>(e));
                    assert(rv_snap.deep_view() == db0.prev_paths(owner_s));
                    assert(call_ensures(f, (rv_snap,), Err::<(), Error>(e)));
                }
                return Err(e);
            },
            Ok(u) => {
                proof {
                    assert(res == Ok::<(), Error>(u));
                    assert(u == ());
                    assert(rv_snap.deep_view() == db0.prev_paths(owner_s));
                    assert(call_ensures(f, (rv_snap,), Ok::<(), Error>(())));
                }
            },
        }

        // Commit: free every claim the owner held.
        let ghost files0 = db0.files_map();
        proof {
            assert(self.files_map() =~= map_minus_prefix(files0, prevd, 0));
        }
        let np: usize = prev.len();
        let mut i: usize = 0;
        while i < np
            invariant
                np == prev.len(),
                0 <= i <= np,
                prevd == prev.deep_view(),
                keys_unique(self.files@),
                self.owners@ == db0.owners@,
                self.files_map() == map_minus_prefix(files0, prevd, i as int),
            decreases np - i,
        {
            assoc_remove(&mut self.files, &prev[i]);
            proof {
                assert(map_minus_prefix(files0, prevd, i as int).remove(prevd[i as int])
                    =~= map_minus_prefix(files0, prevd, i as int + 1));
            }
            i += 1;
        }
        assoc_remove(&mut self.owners, &owner);
        proof {
            let fafter = db0.files_after_remove(owner_s);
            let oafter = db0.owners_map().remove(owner_s);
            assert forall|q: Seq<char>|
                prevd.contains(q) == (files0.contains_key(q) && files0[q] == owner_s) by {
                if prevd.contains(q) {
                    assert(db0.owners_map().contains_key(owner_s)
                        && db0.owners_map()[owner_s].contains(q));
                }
                if files0.contains_key(q) && files0[q] == owner_s {
                    assert(db0.owners_map().contains_key(owner_s)
                        && db0.owners_map()[owner_s].contains(q));
                }
            }
            assert(map_minus_prefix(files0, prevd, np as int) =~= fafter);
            // Well-formedness of the committed state.
            assert forall|o: Seq<char>, p: Seq<char>|
                oafter.contains_key(o) && #[trigger] oafter[o].contains(p) implies
                fafter.contains_key(p) && fafter[p] == o by {
                assert(db0.owners_map().contains_key(o) && db0.owners_map()[o].contains(p));
            }
            assert forall|p: Seq<char>| #[trigger] fafter.contains_key(p) implies
                oafter.contains_key(fafter[p]) && oafter[fafter[p]].contains(p) by {
                assert(db0.files_map().contains_key(p));
            }
        }
        Ok(())
    }

    /// The owner key currently claiming a path, if any.
    pub fn file_owner(&self, path: &String) -> (r: Option<String>)
        requires
            self.wf(),
        ensures
            match r {
                Some(o) => self.files_map().contains_key(path@) && o@
                    == self.files_map()[path@],
                None => !self.files_map().contains_key(path@),
            },
    {
        match assoc_get(&self.files, path) {
            Some(v) => Some(v.clone()),
            None => None,
        }
    }

    /// The recorded file set of an owner, if any.
    pub fn owner_record(&self, namespace: &String, name: &String) -> (r: Option<Vec<String>>)
        requires
            self.wf(),
        ensures
            ({
                let owner = owner_key_spec(namespace@, name@);
                match r {
                    Some(v) => self.owners_map().contains_key(owner) && v.deep_view()
                        == self.owners_map()[owner],
                    None => !self.owners_map().contains_key(owner),
                }
            }),
    {
        let owner = owner_key(namespace, name);
        match assoc_get(&self.owners, &owner) {
            Some(v) => Some(clone_string_vec(v)),
            None => None,
        }
    }
}

} // verus!
