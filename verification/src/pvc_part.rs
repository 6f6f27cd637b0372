use vstd::prelude::*;
use vstd::string::*;

use crate::crd::PvPartSpec;
use crate::db::Db;
use crate::db::owner_key_spec;
use crate::db::seq_unique;
use crate::errors::Error;
use crate::opts::Opts;

verus! {

// ---------------------------------------------------------------------------
// Path safety.
// ---------------------------------------------------------------------------

/// Whether position `i` starts a path segment.
pub open spec fn boundary_before(p: Seq<char>, i: int) -> bool {
    i == 0 || p[i - 1] == '/'
}

/// Whether position `i` ends a path segment.
pub open spec fn boundary_after(p: Seq<char>, i: int) -> bool {
    i == p.len() - 1 || p[i + 1] == '/'
}

/// A declared relative path is safe when every `/`-separated segment is a
/// plain name: the path is nonempty and relative (no leading `/`), and no
/// segment is empty, `.`, or `..`.
pub open spec fn path_is_safe(p: Seq<char>) -> bool {
    &&& p.len() > 0
    &&& p[0] != '/'
    &&& p[p.len() - 1] != '/'
    &&& forall|i: int| #![trigger p[i]]
        0 <= i < p.len() - 1 ==> !(p[i] == '/' && p[i + 1] == '/')
    &&& forall|i: int| #![trigger p[i]]
        0 <= i < p.len() ==> !(p[i] == '.' && boundary_before(p, i) && boundary_after(p, i))
    &&& forall|i: int| #![trigger p[i]]
        0 <= i < p.len() - 1 ==> !(p[i] == '.' && p[i + 1] == '.' && boundary_before(p, i)
            && boundary_after(p, i + 1))
}

/// Decide path safety for a declared relative path.
pub fn validate_rel_path(path: &String) -> (r: bool)
    ensures
        r == path_is_safe(path@),
{
    let s = path.as_str();
    let n: usize = s.unicode_len();
    if n == 0 {
        return false;
    }
    if s.get_char(0) == '/' {
        return false;
    }
    if s.get_char(n - 1) == '/' {
        return false;
    }
    let mut i: usize = 0;
    while i < n
        invariant
            n == path@.len(),
            0 < n,
            0 <= i <= n,
            s@ == path@,
            path@[0] != '/',
            path@[n - 1] != '/',
            forall|j: int| #![trigger path@[j]]
                0 <= j < i && j < n - 1 ==> !(path@[j] == '/' && path@[j + 1] == '/'),
            forall|j: int| #![trigger path@[j]]
                0 <= j < i ==> !(path@[j] == '.' && boundary_before(path@, j)
                    && boundary_after(path@, j)),
            forall|j: int| #![trigger path@[j]]
                0 <= j < i && j < n - 1 ==> !(path@[j] == '.' && path@[j + 1] == '.'
                    && boundary_before(path@, j) && boundary_after(path@, j + 1)),
        decreases n - i,
    {
        let c = s.get_char(i);
        if c == '/' {
            if i + 1 < n && s.get_char(i + 1) == '/' {
                return false;
            }
        }
        if c == '.' {
            let starts_segment = i == 0 || s.get_char(i - 1) == '/';
            if starts_segment {
                let single_ends = i + 1 == n || s.get_char(i + 1) == '/';
                if single_ends {
                    return false;
                }
                if i + 1 < n && s.get_char(i + 1) == '.' {
                    let double_ends = i + 2 == n || s.get_char(i + 2) == '/';
                    if double_ends {
                        return false;
                    }
                }
            }
        }
        i += 1;
    }
    true
}

// ---------------------------------------------------------------------------
// Path resolution against the volume root.
// ---------------------------------------------------------------------------

/// The root directory a named volume is mounted at.
pub open spec fn volume_root_spec(volume: Seq<char>) -> Seq<char> {
    "/volumes/"@ + volume
}

/// A declared relative path joined onto its volume root.
pub open spec fn resolved_path_spec(volume: Seq<char>, rel: Seq<char>) -> Seq<char> {
    volume_root_spec(volume) + "/"@ + rel
}

/// The declared file pairs with every path resolved to an absolute one.
pub open spec fn resolved_files(spec: PvPartSpec) -> Seq<(Seq<char>, Seq<char>)> {
    Seq::new(
        spec.files.deep_view().len(),
        |j: int|
            (
                resolved_path_spec(spec.target_volume@, spec.files.deep_view()[j].0),
                spec.files.deep_view()[j].1,
            ),
    )
}

/// The resolved absolute paths alone, in declaration order.
pub open spec fn resolved_targets(spec: PvPartSpec) -> Seq<Seq<char>> {
    Seq::new(
        spec.files.deep_view().len(),
        |j: int| resolved_path_spec(spec.target_volume@, spec.files.deep_view()[j].0),
    )
}

/// The declared relative paths alone, in declaration order.
pub open spec fn declared_keys(spec: PvPartSpec) -> Seq<Seq<char>> {
    Seq::new(spec.files.deep_view().len(), |j: int| spec.files.deep_view()[j].0)
}

/// Whether the declared volume is in the configured allowed set.
pub open spec fn volume_allowed(spec: PvPartSpec, config: Opts) -> bool {
    config.volumes.deep_view().contains(spec.target_volume@)
}

/// Whether the resource's namespace is the one this instance serves.
pub open spec fn namespace_allowed(config: Opts, namespace: Seq<char>) -> bool {
    config.namespace@ == namespace
}

/// Whether every declared relative path is safe.
pub open spec fn all_paths_safe(spec: PvPartSpec) -> bool {
    forall|j: int|
        0 <= j < spec.files.deep_view().len() ==> path_is_safe(
            #[trigger] spec.files.deep_view()[j].0,
        )
}

/// Two sequences with a common prefix and equal concatenations have equal
/// tails.
proof fn lemma_concat_inj(a: Seq<char>, b1: Seq<char>, b2: Seq<char>)
    requires
        a + b1 == a + b2,
    ensures
        b1 == b2,
{
    assert(b1 =~= (a + b1).subrange(a.len() as int, (a + b1).len() as int));
    assert(b2 =~= (a + b2).subrange(a.len() as int, (a + b2).len() as int));
}

/// Join a declared relative path onto its volume root.
fn resolve_path(volume: &String, rel: &String) -> (r: String)
    ensures
        r@ == resolved_path_spec(volume@, rel@),
{
    let mut r: String = "/volumes/".to_owned();
    r.append(volume.as_str());
    r.append("/");
    r.append(rel.as_str());
    r
}

/// Whether `s` begins with `prefix`.
fn str_starts_with(s: &String, prefix: &String) -> (r: bool)
    ensures
        r == (s@.len() >= prefix@.len() && s@.subrange(0, prefix@.len() as int) == prefix@),
{
    let sl = s.as_str();
    let pl = prefix.as_str();
    let n: usize = pl.unicode_len();
    let m: usize = sl.unicode_len();
    if m < n {
        return false;
    }
    let mut i: usize = 0;
    while i < n
        invariant
            n == prefix@.len(),
            m == s@.len(),
            n <= m,
            0 <= i <= n,
            sl@ == s@,
            pl@ == prefix@,
            forall|j: int| 0 <= j < i ==> s@[j] == prefix@[j],
        decreases n - i,
    {
        if sl.get_char(i) != pl.get_char(i) {
            proof {
                if s@.subrange(0, n as int) == prefix@ {
                    assert(s@.subrange(0, n as int)[i as int] == prefix@[i as int]);
                }
            }
            return false;
        }
        i += 1;
    }
    proof {
        assert(s@.subrange(0, n as int) =~= prefix@);
    }
    true
}

/// Validate a resource's declared intent and resolve each file onto its
/// volume root.
///
/// The checks run in a fixed order: the volume must be configured, the
/// namespace must be the served one, the volume root must exist on disk
/// (reported by the caller), and every declared path must be safe.  The
/// first violation is returned and nothing else is looked at.  As defence in
/// depth each resolved path is re-checked to still lie under the volume
/// root.
pub fn resolve_files(
    spec: &PvPartSpec,
    config: &Opts,
    namespace: &String,
    volume_root_exists: bool,
) -> (r: Result<Vec<(String, String)>, Error>)
    ensures
        ({
            let vol_ok = volume_allowed(*spec, *config);
            let ns_ok = namespace_allowed(*config, namespace@);
            let paths_ok = all_paths_safe(*spec);
            match r {
                Ok(v) => vol_ok && ns_ok && volume_root_exists && paths_ok && v.deep_view()
                    == resolved_files(*spec),
                Err(e) => {
                    &&& !(vol_ok && ns_ok && volume_root_exists && paths_ok)
                    &&& if !vol_ok {
                        e matches Error::VolumeNotMounted(v) && v@ == spec.target_volume@
                    } else if !ns_ok {
                        e matches Error::Forbidden(a, b) && a@ == namespace@ && b@
                            == spec.target_volume@
                    } else if !volume_root_exists {
                        e matches Error::VolumeNotMounted(v) && v@ == spec.target_volume@
                    } else {
                        e == Error::FileName
                    }
                },
            }
        }),
{
    if !config.contains_volume(&spec.target_volume) {
        return Err(Error::VolumeNotMounted(spec.target_volume.clone()));
    }
    if !config.namespace.eq(namespace) {
        return Err(Error::Forbidden(namespace.clone(), spec.target_volume.clone()));
    }
    if !volume_root_exists {
        return Err(Error::VolumeNotMounted(spec.target_volume.clone()));
    }
    let mut root: String = "/volumes/".to_owned();
    root.append(spec.target_volume.as_str());
    let n: usize = spec.files.len();
    let mut out: Vec<(String, String)> = Vec::new();
    let mut i: usize = 0;
    while i < n
        invariant
            n == spec.files.len(),
            0 <= i <= n,
            volume_allowed(*spec, *config),
            namespace_allowed(*config, namespace@),
            volume_root_exists,
            root@ == volume_root_spec(spec.target_volume@),
            out.deep_view().len() == i,
            forall|j: int|
                0 <= j < i ==> #[trigger] out.deep_view()[j] == resolved_files(*spec)[j],
            forall|j: int|
                0 <= j < i ==> path_is_safe(#[trigger] spec.files.deep_view()[j].0),
        decreases n - i,
    {
        if !validate_rel_path(&spec.files[i].0) {
            proof {
                assert(!path_is_safe(spec.files.deep_view()[i as int].0));
            }
            return Err(Error::FileName);
        }
        let abs = resolve_path(&spec.target_volume, &spec.files[i].0);
        proof {
            assert(abs@.subrange(0, root@.len() as int) =~= root@);
        }
        if !str_starts_with(&abs, &root) {
            return Err(Error::FileName);
        }
        let content = spec.files[i].1.clone();
        let ghost abs_v = abs@;
        let ghost content_v = content@;
        let ghost out0 = out.deep_view();
        out.push((abs, content));
        proof {
            assert(content_v == spec.files.deep_view()[i as int].1);
            assert(abs_v == resolved_path_spec(
                spec.target_volume@,
                spec.files.deep_view()[i as int].0,
            ));
            assert forall|j: int|
                0 <= j < i + 1 implies #[trigger] out.deep_view()[j] == resolved_files(
                *spec,
            )[j] by {
                assert(out.deep_view()[j] == out@[j].deep_view());
                if j < i as int {
                    assert(out@[j].deep_view() == out0[j]);
                } else {
                    assert(out@[j].deep_view() == (abs_v, content_v));
                }
            }
        }
        i += 1;
    }
    proof {
        assert(out.deep_view() =~= resolved_files(*spec));
    }
    Ok(out)
}

/// Materialize a resource's declared file set.
///
/// After validation (see [`resolve_files`]) the resolved paths are proposed
/// to the ledger under the owner `(namespace, name)`: a path held by a
/// different owner aborts with `Conflict`, a failing commit step `f` aborts
/// with `f`'s error, and in both cases the ledger is unchanged.  On success
/// the owner's claims are exactly the resolved paths.  The caller's `f`
/// receives the released paths and is expected to write every desired file
/// and delete the released ones.
pub fn deploy<F: Fn(Vec<String>) -> Result<(), Error>>(
    spec: &PvPartSpec,
    config: &Opts,
    namespace: &String,
    name: &String,
    db: &mut Db,
    volume_root_exists: bool,
    f: F,
) -> (r: Result<(), Error>)
    requires
        old(db).wf(),
        seq_unique(declared_keys(*spec)),
        forall|v: Vec<String>| #[trigger] call_requires(f, (v,)),
    ensures
        final(db).wf(),
        ({
            let vol_ok = volume_allowed(*spec, *config);
            let ns_ok = namespace_allowed(*config, namespace@);
            let paths_ok = all_paths_safe(*spec);
            let owner = owner_key_spec(namespace@, name@);
            let desired = resolved_targets(*spec);
            if !(vol_ok && ns_ok && volume_root_exists && paths_ok) {
                &&& *final(db) == *old(db)
                &&& r is Err
                &&& (r matches Err(e) ==> (if !vol_ok {
                    e matches Error::VolumeNotMounted(v) && v@ == spec.target_volume@
                } else if !ns_ok {
                    e matches Error::Forbidden(a, b) && a@ == namespace@ && b@
                        == spec.target_volume@
                } else if !volume_root_exists {
                    e matches Error::VolumeNotMounted(v) && v@ == spec.target_volume@
                } else {
                    e == Error::FileName
                }))
            } else {
                match r {
                    Ok(()) => {
                        &&& !old(db).has_conflict(owner, desired)
                        &&& final(db).files_map() == old(db).files_after_apply(owner, desired)
                        &&& final(db).owners_map() == old(db).owners_map().insert(
                            owner,
                            desired,
                        )
                        &&& exists|rv: Vec<String>|
                            rv.deep_view() == old(db).removed_paths(owner, desired)
                                && #[trigger] call_ensures(f, (rv,), Ok::<(), Error>(()))
                    },
                    Err(e) => {
                        &&& *final(db) == *old(db)
                        &&& old(db).has_conflict(owner, desired) ==> (e matches Error::Conflict(
                            cur,
                            req,
                        ) && req@ == owner && cur@ != owner && (exists|p: Seq<char>| #[trigger]
                            desired.contains(p) && old(db).files_map().contains_key(p)
                                && old(db).files_map()[p] == cur@))
                        &&& !old(db).has_conflict(owner, desired) ==> (exists|rv: Vec<String>|
                            rv.deep_view() == old(db).removed_paths(owner, desired)
                                && #[trigger] call_ensures(f, (rv,), Err::<(), Error>(e)))
                    },
                }
            }
        }),
{
    let resolved = match resolve_files(spec, config, namespace, volume_root_exists) {
        Ok(v) => v,
        Err(e) => {
            return Err(e);
        },
    };
    let nr: usize = resolved.len();
    let mut targets: Vec<String> = Vec::new();
    let mut i: usize = 0;
    while i < nr
        invariant
            nr == resolved.len(),
            0 <= i <= nr,
            resolved.deep_view() == resolved_files(*spec),
            targets.deep_view().len() == i,
            forall|j: int|
                0 <= j < i ==> #[trigger] targets.deep_view()[j] == resolved_targets(*spec)[j],
        decreases nr - i,
    {
        let item = resolved[i].0.clone();
        let ghost item_v = item@;
        proof {
            assert(resolved.deep_view().len() == resolved@.len());
            assert((i as int) < spec.files.deep_view().len());
            assert(resolved.deep_view()[i as int] == resolved_files(*spec)[i as int]);
            assert(resolved.deep_view()[i as int] == resolved@[i as int].deep_view());
            assert(item_v == resolved@[i as int].0@);
            assert(resolved_files(*spec)[i as int].0 == resolved_targets(*spec)[i as int]);
            assert(item_v == resolved_targets(*spec)[i as int]);
        }
        let ghost t0 = targets.deep_view();
        targets.push(item);
        proof {
            assert forall|j: int|
                0 <= j < i + 1 implies #[trigger] targets.deep_view()[j] == resolved_targets(
                *spec,
            )[j] by {
                assert(targets.deep_view()[j] == targets@[j]@);
                if j < i as int {
                    assert(targets@[j]@ == t0[j]);
                } else {
                    assert(targets@[j]@ == item_v);
                }
            }
        }
        i += 1;
    }
    proof {
        assert(targets.deep_view().len() == nr as int);
        assert(resolved.deep_view().len() == resolved@.len());
        assert(resolved_targets(*spec).len() == resolved_files(*spec).len());
        assert(targets.deep_view() =~= resolved_targets(*spec));
        let keys = declared_keys(*spec);
        let head = volume_root_spec(spec.target_volume@) + "/"@;
        assert forall|a: int, b: int|
            0 <= a < b < resolved_targets(*spec).len() implies resolved_targets(*spec)[a]
            != resolved_targets(*spec)[b] by {
            if resolved_targets(*spec)[a] == resolved_targets(*spec)[b] {
                assert(head + keys[a] =~= resolved_targets(*spec)[a]);
                assert(head + keys[b] =~= resolved_targets(*spec)[b]);
                lemma_concat_inj(head, keys[a], keys[b]);
            }
        }
        assert(seq_unique(targets.deep_view()));
    }
    db.apply_changes(namespace, name, &targets, f)
}

/// Tear a resource's materialized file set down.
///
/// After the volume and namespace validations the owner `(namespace, name)`
/// is released from the ledger: its full recorded path list is handed to the
/// caller's `f`, which is expected to remove each file and prune its parent
/// directory; a failure of `f` aborts with the ledger unchanged.  On success
/// no path is attributed to the owner any more.
pub fn delete<F: Fn(Vec<String>) -> Result<(), Error>>(
    spec: &PvPartSpec,
    config: &Opts,
    namespace: &String,
    name: &String,
    db: &mut Db,
    volume_root_exists: bool,
    f: F,
) -> (r: Result<(), Error>)
    requires
        old(db).wf(),
        forall|v: Vec<String>| #[trigger] call_requires(f, (v,)),
    ensures
        final(db).wf(),
        ({
            let vol_ok = volume_allowed(*spec, *config);
            let ns_ok = namespace_allowed(*config, namespace@);
            let owner = owner_key_spec(namespace@, name@);
            if !(vol_ok && ns_ok && volume_root_exists) {
                &&& *final(db) == *old(db)
                &&& r is Err
                &&& (r matches Err(e) ==> (if !vol_ok {
                    e matches Error::VolumeNotMounted(v) && v@ == spec.target_volume@
                } else if !ns_ok {
                    e matches Error::Forbidden(a, b) && a@ == namespace@ && b@
                        == spec.target_volume@
                } else {
                    e matches Error::VolumeNotMounted(v) && v@ == spec.target_volume@
                }))
            } else {
                match r {
                    Ok(()) => {
                        &&& final(db).files_map() == old(db).files_after_remove(owner)
                        &&& final(db).owners_map() == old(db).owners_map().remove(owner)
                        &&& exists|rv: Vec<String>|
                            rv.deep_view() == old(db).prev_paths(owner)
                                && #[trigger] call_ensures(f, (rv,), Ok::<(), Error>(()))
                    },
                    Err(e) => {
                        &&& *final(db) == *old(db)
                        &&& exists|rv: Vec<String>|
                            rv.deep_view() == old(db).prev_paths(owner)
                                && #[trigger] call_ensures(f, (rv,), Err::<(), Error>(e))
                    },
                }
            }
        }),
{
    if !config.contains_volume(&spec.target_volume) {
        return Err(Error::VolumeNotMounted(spec.target_volume.clone()));
    }
    if !config.namespace.eq(namespace) {
        return Err(Error::Forbidden(namespace.clone(), spec.target_volume.clone()));
    }
    if !volume_root_exists {
        return Err(Error::VolumeNotMounted(spec.target_volume.clone()));
    }
    db.remove(namespace, name, f)
}

} // verus!
