//! Plain value types shared by every record: identities, enums, parameter
//! bundles and the agent configuration.

use crate::kv;
use vstd::prelude::*;

verus! {

/// A 32-byte address, used both as a record handle and as a caller identity.
#[derive(Clone, Copy, Debug, PartialEq, Eq, Hash)]
pub struct Pubkey {
    pub bytes: [u8; 32],
}

impl View for Pubkey {
    type V = Seq<u8>;

    open spec fn view(&self) -> Seq<u8> {
        self.bytes@
    }
}

impl Pubkey {
    pub fn new(bytes: [u8; 32]) -> (r: Pubkey)
        ensures
            r@ == bytes@,
    {
        Pubkey { bytes }
    }

    /// Byte-for-byte equality of two addresses.
    pub fn eq_key(&self, other: &Pubkey) -> (r: bool)
        ensures
            r == (self@ == other@),
    {
        let mut i: usize = 0;
        while i < 32
            invariant
                i <= 32,
                forall|j: int| 0 <= j < i ==> self.bytes@[j] == other.bytes@[j],
            decreases 32 - i,
        {
            if self.bytes[i] != other.bytes[i] {
                assert(self@ != other@);
                return false;
            }
            i += 1;
        }
        proof {
            assert(self@ =~= other@);
        }
        true
    }
}

/// Security posture an agent is configured to run at.
#[derive(Clone, Copy, Debug, PartialEq, Eq, Structural)]
pub enum SecurityLevel {
    Low,
    Medium,
    High,
    Maximum,
}

impl Default for SecurityLevel {
    /// The default posture is `Medium`.
    fn default() -> (r: SecurityLevel)
        ensures
            r == SecurityLevel::Medium,
    {
        SecurityLevel::Medium
    }
}

/// Severity reported by a security update.
#[derive(Clone, Copy, Debug, PartialEq, Eq, Structural)]
pub enum RiskLevel {
    Safe,
    Warning,
    Critical,
}

/// Progress of a contract analysis; every analysis starts `InProgress`.
#[derive(Clone, Copy, Debug, PartialEq, Eq, Structural)]
pub enum AnalysisStatus {
    InProgress,
    Completed,
    Failed,
}

/// Progress of a transaction optimization; every job starts `Processing`.
#[derive(Clone, Copy, Debug, PartialEq, Eq, Structural)]
pub enum OptimizationStatus {
    Processing,
    Optimized,
    Failed,
}

/// Why an operation was rejected.  Rejection is atomic: a failed operation
/// leaves the store exactly as it was.
#[derive(Clone, Copy, Debug, PartialEq, Eq, Structural)]
pub enum ManofError {
    /// A storage slot could not be reserved: the target address is already
    /// occupied, the referenced agent does not exist, or a size or counter
    /// limit would be exceeded.
    AllocationError,
    /// The caller is not the agent's owner.
    Unauthorized,
    /// Reserved for analysis-parameter validation; not raised by any current
    /// operation.
    InvalidAnalysisParams,
    /// Reserved for security-level validation; not raised by any current
    /// operation.
    InvalidSecurityLevel,
    /// Reserved for downstream optimization failures; not raised by any
    /// current operation.
    OptimizationFailed,
}

/// Aggregated per-agent counters.  Each is only ever increased, by exactly
/// one tracker operation each.
#[derive(Clone, Copy, Debug, PartialEq, Eq, Structural)]
pub struct PerformanceMetrics {
    pub total_analyses: u64,
    pub total_optimizations: u64,
    pub threats_prevented: u64,
}

impl Default for PerformanceMetrics {
    /// A fresh agent starts with all counters at zero.
    fn default() -> (r: PerformanceMetrics)
        ensures
            r.total_analyses == 0,
            r.total_optimizations == 0,
            r.threats_prevented == 0,
    {
        PerformanceMetrics { total_analyses: 0, total_optimizations: 0, threats_prevented: 0 }
    }
}

/// How deep and wide one contract analysis should go.
#[derive(Clone, Copy, Debug, PartialEq, Eq, Structural)]
pub struct AnalysisParams {
    pub depth: u8,
    pub include_security: bool,
    pub optimize_gas: bool,
}

/// Payload of one transaction optimization job.
#[derive(Clone, Debug, PartialEq, Eq)]
pub struct TransactionData {
    pub instructions: Vec<u8>,
    pub gas_limit: u64,
    pub priority: u8,
}

/// Mathematical value of a [`TransactionData`].
pub ghost struct TransactionDataV {
    pub instructions: Seq<u8>,
    pub gas_limit: u64,
    pub priority: u8,
}

impl View for TransactionData {
    type V = TransactionDataV;

    open spec fn view(&self) -> TransactionDataV {
        TransactionDataV {
            instructions: self.instructions@,
            gas_limit: self.gas_limit,
            priority: self.priority,
        }
    }
}

/// Contents of one security report.
#[derive(Clone, Copy, Debug, PartialEq, Eq, Structural)]
pub struct SecurityData {
    pub threats_detected: u64,
    pub risk_level: RiskLevel,
    pub vulnerability_count: u64,
}

/// Named numeric optimization parameters: a mapping with unique keys and no
/// ordering guarantee.
#[derive(Clone, Debug, PartialEq, Eq)]
pub struct ParamMap {
    pub entries: Vec<(String, u64)>,
}

impl View for ParamMap {
    type V = Map<Seq<char>, u64>;

    open spec fn view(&self) -> Map<Seq<char>, u64> {
        kv::map_of(self.entries@)
    }
}

impl ParamMap {
    /// Keys are pairwise distinct.
    pub open spec fn wf(&self) -> bool {
        kv::unique_keys(self.entries@)
    }

    /// Number of entries held.
    pub open spec fn spec_len(&self) -> nat {
        self.entries@.len()
    }

    pub fn new() -> (r: ParamMap)
        ensures
            r.wf(),
            r@ == Map::<Seq<char>, u64>::empty(),
            r.spec_len() == 0,
    {
        ParamMap { entries: Vec::new() }
    }

    pub fn len(&self) -> (r: usize)
        ensures
            r == self.spec_len(),
    {
        self.entries.len()
    }

    /// The position of the entry carrying `key`, if any.
    fn find(&self, key: &String) -> (r: Option<usize>)
        ensures
            match r {
                Some(i) => i < self.entries@.len() && self.entries@[i as int].0@ == key@,
                None => forall|i: int|
                    0 <= i < self.entries@.len() ==> self.entries@[i].0@ != key@,
            },
    {
        let n: usize = self.entries.len();
        let mut i: usize = 0;
        while i < n
            invariant
                n == self.entries@.len(),
                i <= n,
                forall|j: int| 0 <= j < i ==> self.entries@[j].0@ != key@,
            decreases n - i,
        {
            if self.entries[i].0 == *key {
                return Some(i);
            }
            i += 1;
        }
        None
    }

    /// Whether a value is bound to `key`.
    pub fn contains_key(&self, key: &String) -> (r: bool)
        requires
            self.wf(),
        ensures
            r == self@.contains_key(key@),
    {
        proof {
            kv::lemma_map_of_contains(self.entries@, key@);
        }
        self.find(key).is_some()
    }

    /// The value bound to `key`, if any.
    pub fn get(&self, key: &String) -> (r: Option<u64>)
        requires
            self.wf(),
        ensures
            match r {
                Some(v) => self@.contains_key(key@) && self@[key@] == v,
                None => !self@.contains_key(key@),
            },
    {
        proof {
            kv::lemma_map_of_contains(self.entries@, key@);
        }
        match self.find(key) {
            Some(i) => {
                proof {
                    kv::lemma_map_of_index(self.entries@, i as int);
                }
                Some(self.entries[i].1)
            },
            None => None,
        }
    }

    /// Binds `key` to `value`, replacing any earlier binding.
    pub fn insert(&mut self, key: String, value: u64)
        requires
            old(self).wf(),
        ensures
            final(self).wf(),
            final(self)@ == old(self)@.insert(key@, value),
            final(self).spec_len() <= old(self).spec_len() + 1,
    {
        proof {
            kv::lemma_map_of_contains(self.entries@, key@);
        }
        match self.find(&key) {
            Some(i) => {
                proof {
                    kv::lemma_map_of_update(self.entries@, i as int, (key, value));
                }
                let entry = &mut self.entries[i];
                *entry = (key, value);
                assert(self.entries@ =~= old(self).entries@.update(i as int, (key, value)));
            },
            None => {
                proof {
                    kv::lemma_map_of_push(self.entries@, (key, value));
                }
                self.entries.push((key, value));
                assert forall|x: int, y: int|
                    0 <= x < y < self.entries@.len() implies self.entries@[x].0@
                    != self.entries@[y].0@ by {
                    if y < self.entries@.len() - 1 {
                        assert(old(self).entries@[x] == self.entries@[x]);
                        assert(old(self).entries@[y] == self.entries@[y]);
                    } else {
                        assert(old(self).entries@[x] == self.entries@[x]);
                    }
                }
            },
        }
    }
}

/// An agent's structured configuration.
#[derive(Clone, Debug, PartialEq, Eq)]
pub struct AgentConfig {
    pub analysis_threshold: u64,
    pub optimization_params: ParamMap,
    pub security_level: SecurityLevel,
}

/// Mathematical value of an [`AgentConfig`].
pub ghost struct AgentConfigV {
    pub analysis_threshold: u64,
    pub optimization_params: Map<Seq<char>, u64>,
    pub security_level: SecurityLevel,
}

impl View for AgentConfig {
    type V = AgentConfigV;

    open spec fn view(&self) -> AgentConfigV {
        AgentConfigV {
            analysis_threshold: self.analysis_threshold,
            optimization_params: self.optimization_params@,
            security_level: self.security_level,
        }
    }
}

impl AgentConfig {
    /// The parameter map has unique keys.
    pub open spec fn wf(&self) -> bool {
        self.optimization_params.wf()
    }
}

impl Default for AgentConfig {
    /// Zero threshold, no optimization parameters, `Medium` security.
    fn default() -> (r: AgentConfig)
        ensures
            r.wf(),
            r@.analysis_threshold == 0,
            r@.optimization_params == Map::<Seq<char>, u64>::empty(),
            r@.security_level == SecurityLevel::Medium,
    {
        AgentConfig {
            analysis_threshold: 0,
            optimization_params: ParamMap::new(),
            security_level: SecurityLevel::default(),
        }
    }
}

} // verus!
