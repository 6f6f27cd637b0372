use vstd::prelude::*;

verus! {

/// Versioned configuration document.  Version "1" carries the set of volume
/// names this controller instance is allowed to materialize into.
#[derive(Debug, Clone, PartialEq, Eq)]
pub enum Config {
    V1(ConfigV1),
}

/// The first configuration schema: a flat list of allowed volume names.
/// (A per-volume namespace allow-list is a known schema variant; validation
/// is concentrated in one place so a different policy can replace it.)
#[derive(Debug, Clone, PartialEq, Eq)]
pub struct ConfigV1 {
    pub volumes: Vec<String>,
}

/// Runtime options threaded by parameter into every reconciliation call:
/// the single namespace this instance serves and the allowed volumes.
#[derive(Debug, Clone, PartialEq, Eq)]
pub struct Opts {
    pub namespace: String,
    pub volumes: Vec<String>,
}

impl Opts {
    /// Combine the serving namespace with the parsed configuration.
    pub fn new(namespace: String, config: ConfigV1) -> (r: Self)
        ensures
            r.namespace == namespace,
            r.volumes == config.volumes,
    {
        Self { namespace, volumes: config.volumes }
    }

    /// Whether the named volume is in the configured allowed set.
    pub fn contains_volume(&self, volume: &String) -> (r: bool)
        ensures
            r == self.volumes.deep_view().contains(volume@),
    {
        let n: usize = self.volumes.len();
        let mut i: usize = 0;
        while i < n
            invariant
                n == self.volumes.len(),
                0 <= i <= n,
                forall|j: int| 0 <= j < i ==> self.volumes@[j]@ != volume@,
            decreases n - i,
        {
            if volume.eq(&self.volumes[i]) {
                assert(self.volumes.deep_view()[i as int] == volume@);
                return true;
            }
            i += 1;
        }
        assert forall|k: int|
            0 <= k < self.volumes.deep_view().len() implies self.volumes.deep_view()[k]
            != volume@ by {
            assert(self.volumes.deep_view()[k] == self.volumes@[k]@);
        }
        false
    }
}

} // verus!
