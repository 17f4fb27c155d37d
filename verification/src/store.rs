//! The record store and the four operations that mutate it.
//!
//! A [`RecordStore`] holds every persisted record, keyed by address.  Each
//! operation is atomic: it either creates exactly one record (bumping the
//! owning agent's counter where the operation calls for it) or fails with a
//! [`ManofError`] and leaves the store untouched.  The host environment
//! supplies the caller's authenticated identity in the accounts bundle and
//! the current clock value in `now`; everything else is decided here.

use crate::kv;
use crate::records::{
    Agent, AgentV, ContractAnalysis, ContractAnalysisV, SecurityMonitor, SecurityMonitorV,
    TransactionOptimization, TransactionOptimizationV, agent_v_wf, MAX_NAME_BYTES,
};
use crate::types::{
    AgentConfig, AgentConfigV, AnalysisParams, AnalysisStatus, ManofError, OptimizationStatus,
    PerformanceMetrics, Pubkey, SecurityData, TransactionData, TransactionDataV,
};
use vstd::prelude::*;
use vstd::utf8::encode_utf8;

verus! {

/// Abstract state of the store: one map per record kind, keyed by address.
#[verifier::ext_equal]
pub ghost struct StoreModel {
    pub agents: Map<Seq<u8>, AgentV>,
    pub analyses: Map<Seq<u8>, ContractAnalysisV>,
    pub optimizations: Map<Seq<u8>, TransactionOptimizationV>,
    pub monitors: Map<Seq<u8>, SecurityMonitorV>,
}

impl StoreModel {
    /// Some record of any kind already lives at `addr`.
    pub open spec fn occupied(self, addr: Seq<u8>) -> bool {
        ||| self.agents.contains_key(addr)
        ||| self.analyses.contains_key(addr)
        ||| self.optimizations.contains_key(addr)
        ||| self.monitors.contains_key(addr)
    }

    /// Every sub-record points back at an existing agent, and every agent
    /// fits its storage slot.
    pub open spec fn inv(self) -> bool {
        &&& forall|k: Seq<u8>| #[trigger]
            self.analyses.contains_key(k) ==> self.agents.contains_key(self.analyses[k].agent)
        &&& forall|k: Seq<u8>| #[trigger]
            self.optimizations.contains_key(k) ==> self.agents.contains_key(
                self.optimizations[k].agent,
            )
        &&& forall|k: Seq<u8>| #[trigger]
            self.monitors.contains_key(k) ==> self.agents.contains_key(self.monitors[k].agent)
        &&& forall|k: Seq<u8>| #[trigger] self.agents.contains_key(k) ==> agent_v_wf(
            self.agents[k],
        )
    }
}

/// The counters of a freshly created agent: all zero.
pub open spec fn zero_metrics() -> PerformanceMetrics {
    PerformanceMetrics { total_analyses: 0, total_optimizations: 0, threats_prevented: 0 }
}

/// The agent record `initialize_agent` writes.
pub open spec fn fresh_agent(owner: Seq<u8>, name: Seq<char>, config: AgentConfigV) -> AgentV {
    AgentV { owner, name, config, is_active: true, performance_metrics: zero_metrics() }
}

/// When agent creation succeeds: the slot is free and the name fits it.
pub open spec fn init_ok(m: StoreModel, addr: Seq<u8>, name: Seq<char>) -> bool {
    &&& !m.occupied(addr)
    &&& encode_utf8(name).len() <= MAX_NAME_BYTES
}

/// Effect of a successful agent creation.
pub open spec fn init_apply(
    m: StoreModel,
    addr: Seq<u8>,
    owner: Seq<u8>,
    name: Seq<char>,
    config: AgentConfigV,
) -> StoreModel {
    StoreModel { agents: m.agents.insert(addr, fresh_agent(owner, name, config)), ..m }
}

/// Whether a tracker operation may go ahead: the agent exists, the caller
/// owns it, the sub-record's slot is free, and the touched counter has room
/// for the increment `delta`.
pub open spec fn tracker_ok(
    m: StoreModel,
    rec_addr: Seq<u8>,
    agent: Seq<u8>,
    caller: Seq<u8>,
    counter: u64,
    delta: u64,
) -> bool {
    &&& m.agents.contains_key(agent)
    &&& m.agents[agent].owner == caller
    &&& !m.occupied(rec_addr)
    &&& counter + delta <= u64::MAX
}

/// The error a refused tracker operation reports.  Ownership is checked
/// right after the agent is resolved, so `Unauthorized` wins over slot and
/// counter problems; every other refusal is an allocation failure.
pub open spec fn tracker_err(m: StoreModel, agent: Seq<u8>, caller: Seq<u8>) -> ManofError {
    if m.agents.contains_key(agent) && m.agents[agent].owner != caller {
        ManofError::Unauthorized
    } else {
        ManofError::AllocationError
    }
}

/// `a` with `total_analyses` one higher.
pub open spec fn bump_analyses(a: AgentV) -> AgentV {
    AgentV {
        performance_metrics: PerformanceMetrics {
            total_analyses: (a.performance_metrics.total_analyses + 1) as u64,
            ..a.performance_metrics
        },
        ..a
    }
}

/// `a` with `total_optimizations` one higher.
pub open spec fn bump_optimizations(a: AgentV) -> AgentV {
    AgentV {
        performance_metrics: PerformanceMetrics {
            total_optimizations: (a.performance_metrics.total_optimizations + 1) as u64,
            ..a.performance_metrics
        },
        ..a
    }
}

/// `a` with `threats_prevented` raised by the reported detection count.
pub open spec fn add_threats(a: AgentV, detected: u64) -> AgentV {
    AgentV {
        performance_metrics: PerformanceMetrics {
            threats_prevented: (a.performance_metrics.threats_prevented + detected) as u64,
            ..a.performance_metrics
        },
        ..a
    }
}

/// Effect of a successful `analyze_contract`.
pub open spec fn analyze_apply(
    m: StoreModel,
    rec_addr: Seq<u8>,
    agent: Seq<u8>,
    now: i64,
    contract: Seq<u8>,
    params: AnalysisParams,
) -> StoreModel {
    StoreModel {
        agents: m.agents.insert(agent, bump_analyses(m.agents[agent])),
        analyses: m.analyses.insert(
            rec_addr,
            ContractAnalysisV {
                contract,
                agent,
                timestamp: now,
                params,
                status: AnalysisStatus::InProgress,
            },
        ),
        ..m
    }
}

/// Effect of a successful `optimize_transaction`.
pub open spec fn optimize_apply(
    m: StoreModel,
    rec_addr: Seq<u8>,
    agent: Seq<u8>,
    now: i64,
    tx: TransactionDataV,
) -> StoreModel {
    StoreModel {
        agents: m.agents.insert(agent, bump_optimizations(m.agents[agent])),
        optimizations: m.optimizations.insert(
            rec_addr,
            TransactionOptimizationV {
                transaction: tx,
                agent,
                timestamp: now,
                status: OptimizationStatus::Processing,
            },
        ),
        ..m
    }
}

/// Effect of a successful `update_security_status`.
pub open spec fn security_apply(
    m: StoreModel,
    rec_addr: Seq<u8>,
    agent: Seq<u8>,
    now: i64,
    data: SecurityData,
) -> StoreModel {
    StoreModel {
        agents: m.agents.insert(agent, add_threats(m.agents[agent], data.threats_detected)),
        monitors: m.monitors.insert(
            rec_addr,
            SecurityMonitorV { agent, data, last_update: now },
        ),
        ..m
    }
}

/// Accounts taking part in `initialize_agent`: the slot for the new agent
/// record and the signing owner-to-be, who pays for it.
#[derive(Clone, Copy, Debug, PartialEq, Eq)]
pub struct InitializeAgent {
    pub agent: Pubkey,
    pub owner: Pubkey,
}

/// Accounts taking part in `analyze_contract`: the slot for the new analysis
/// record, the agent it belongs to, and the signing caller.
#[derive(Clone, Copy, Debug, PartialEq, Eq)]
pub struct AnalyzeContract {
    pub contract_analysis: Pubkey,
    pub agent: Pubkey,
    pub owner: Pubkey,
}

/// Accounts taking part in `optimize_transaction`: the slot for the new
/// optimization record, the agent it belongs to, and the signing caller.
#[derive(Clone, Copy, Debug, PartialEq, Eq)]
pub struct OptimizeTransaction {
    pub transaction_optimization: Pubkey,
    pub agent: Pubkey,
    pub owner: Pubkey,
}

/// Accounts taking part in `update_security_status`: the slot for the new
/// security report, the agent it belongs to, and the signing caller.
#[derive(Clone, Copy, Debug, PartialEq, Eq)]
pub struct UpdateSecurity {
    pub security_monitor: Pubkey,
    pub agent: Pubkey,
    pub owner: Pubkey,
}

/// The whole platform state: every record, keyed by its address.
pub struct RecordStore {
    pub agents: Vec<(Pubkey, Agent)>,
    pub analyses: Vec<(Pubkey, ContractAnalysis)>,
    pub optimizations: Vec<(Pubkey, TransactionOptimization)>,
    pub monitors: Vec<(Pubkey, SecurityMonitor)>,
}

impl View for RecordStore {
    type V = StoreModel;

    open spec fn view(&self) -> StoreModel {
        StoreModel {
            agents: kv::map_of(self.agents@),
            analyses: kv::map_of(self.analyses@),
            optimizations: kv::map_of(self.optimizations@),
            monitors: kv::map_of(self.monitors@),
        }
    }
}

/// The position of the entry keyed by `key`, if any.
fn find_key<T>(entries: &Vec<(Pubkey, T)>, key: &Pubkey) -> (r: Option<usize>)
    ensures
        match r {
            Some(i) => i < entries@.len() && entries@[i as int].0@ == key@,
            None => forall|i: int| 0 <= i < entries@.len() ==> entries@[i].0@ != key@,
        },
{
    let n: usize = entries.len();
    let mut i: usize = 0;
    while i < n
        invariant
            n == entries@.len(),
            i <= n,
            forall|j: int| 0 <= j < i ==> entries@[j].0@ != key@,
        decreases n - i,
    {
        if entries[i].0.eq_key(key) {
            return Some(i);
        }
        i += 1;
    }
    None
}

impl RecordStore {
    /// Addresses are unique within and across the four collections, stored
    /// agent records are well formed, and the abstract invariant holds.
    pub open spec fn wf(&self) -> bool {
        &&& kv::unique_keys(self.agents@)
        &&& kv::unique_keys(self.analyses@)
        &&& kv::unique_keys(self.optimizations@)
        &&& kv::unique_keys(self.monitors@)
        &&& self.keys_disjoint()
        &&& forall|i: int| 0 <= i < self.agents@.len() ==> (#[trigger] self.agents@[i].1).wf()
        &&& self@.inv()
    }

    /// No address is used by entries of two different collections.
    pub open spec fn keys_disjoint(&self) -> bool {
        &&& forall|i: int, j: int|
            0 <= i < self.agents@.len() && 0 <= j < self.analyses@.len()
                ==> (#[trigger] self.agents@[i]).0@ != (#[trigger] self.analyses@[j]).0@
        &&& forall|i: int, j: int|
            0 <= i < self.agents@.len() && 0 <= j < self.optimizations@.len()
                ==> (#[trigger] self.agents@[i]).0@ != (#[trigger] self.optimizations@[j]).0@
        &&& forall|i: int, j: int|
            0 <= i < self.agents@.len() && 0 <= j < self.monitors@.len()
                ==> (#[trigger] self.agents@[i]).0@ != (#[trigger] self.monitors@[j]).0@
        &&& forall|i: int, j: int|
            0 <= i < self.analyses@.len() && 0 <= j < self.optimizations@.len()
                ==> (#[trigger] self.analyses@[i]).0@ != (#[trigger] self.optimizations@[j]).0@
        &&& forall|i: int, j: int|
            0 <= i < self.analyses@.len() && 0 <= j < self.monitors@.len()
                ==> (#[trigger] self.analyses@[i]).0@ != (#[trigger] self.monitors@[j]).0@
        &&& forall|i: int, j: int|
            0 <= i < self.optimizations@.len() && 0 <= j < self.monitors@.len()
                ==> (#[trigger] self.optimizations@[i]).0@ != (#[trigger] self.monitors@[j]).0@
    }

    /// An empty store.
    pub fn new() -> (r: RecordStore)
        ensures
            r.wf(),
            r@.agents == Map::<Seq<u8>, AgentV>::empty(),
            r@.analyses == Map::<Seq<u8>, ContractAnalysisV>::empty(),
            r@.optimizations == Map::<Seq<u8>, TransactionOptimizationV>::empty(),
            r@.monitors == Map::<Seq<u8>, SecurityMonitorV>::empty(),
    {
        RecordStore {
            agents: Vec::new(),
            analyses: Vec::new(),
            optimizations: Vec::new(),
            monitors: Vec::new(),
        }
    }

    /// Whether any record lives at `addr`.
    pub fn is_occupied(&self, addr: &Pubkey) -> (r: bool)
        ensures
            r == self@.occupied(addr@),
    {
        proof {
            kv::lemma_map_of_contains(self.agents@, addr@);
            kv::lemma_map_of_contains(self.analyses@, addr@);
            kv::lemma_map_of_contains(self.optimizations@, addr@);
            kv::lemma_map_of_contains(self.monitors@, addr@);
        }
        find_key(&self.agents, addr).is_some() || find_key(&self.analyses, addr).is_some()
            || find_key(&self.optimizations, addr).is_some() || find_key(
            &self.monitors,
            addr,
        ).is_some()
    }

    /// Creates the agent record: owner and name as given, the configuration
    /// verbatim, `is_active` set, all counters zero.  Fails with
    /// `AllocationError` when the slot is occupied or the name does not fit
    /// it; a failed call changes nothing.
    pub fn initialize_agent(
        &mut self,
        accounts: InitializeAgent,
        name: String,
        config: AgentConfig,
    ) -> (r: Result<(), ManofError>)
        requires
            old(self).wf(),
            config.wf(),
        ensures
            final(self).wf(),
            r is Ok <==> init_ok(old(self)@, accounts.agent@, name@),
            r is Ok ==> final(self)@ == init_apply(
                old(self)@,
                accounts.agent@,
                accounts.owner@,
                name@,
                config@,
            ),
            r is Err ==> *final(self) == *old(self) && r == Result::<(), ManofError>::Err(
                ManofError::AllocationError,
            ),
    {
        if self.is_occupied(&accounts.agent) {
            return Err(ManofError::AllocationError);
        }
        if name.as_str().as_bytes().len() > MAX_NAME_BYTES {
            return Err(ManofError::AllocationError);
        }
        let agent = Agent {
            owner: accounts.owner,
            name,
            config,
            is_active: true,
            performance_metrics: PerformanceMetrics::default(),
        };
        proof {
            kv::lemma_map_of_push(self.agents@, (accounts.agent, agent));
            kv::lemma_map_of_contains(self.agents@, accounts.agent@);
            kv::lemma_map_of_finite(config.optimization_params.entries@);
        }
        self.agents.push((accounts.agent, agent));
        proof {
            kv::lemma_map_of_contains(self.analyses@, accounts.agent@);
            kv::lemma_map_of_contains(self.optimizations@, accounts.agent@);
            kv::lemma_map_of_contains(self.monitors@, accounts.agent@);
            let prev = old(self).agents@;
            assert forall|x: int, y: int|
                0 <= x < y < self.agents@.len() implies self.agents@[x].0@
                != self.agents@[y].0@ by {
                assert(self.agents@[x] == prev[x]);
                if y < self.agents@.len() - 1 {
                    assert(self.agents@[y] == prev[y]);
                }
            }
            assert(self@ =~= init_apply(
                old(self)@,
                accounts.agent@,
                accounts.owner@,
                name@,
                config@,
            ));
        }
        Ok(())
    }

    /// The agent record at `addr`, if one exists.
    pub fn get_agent(&self, addr: &Pubkey) -> (r: Option<&Agent>)
        requires
            self.wf(),
        ensures
            match r {
                Some(a) => self@.agents.contains_key(addr@) && a@ == self@.agents[addr@]
                    && a.wf(),
                None => !self@.agents.contains_key(addr@),
            },
    {
        proof {
            kv::lemma_map_of_contains(self.agents@, addr@);
        }
        match find_key(&self.agents, addr) {
            Some(i) => {
                proof {
                    kv::lemma_map_of_index(self.agents@, i as int);
                }
                Some(&self.agents[i].1)
            },
            None => None,
        }
    }

    /// The contract analysis record at `addr`, if one exists.
    pub fn get_analysis(&self, addr: &Pubkey) -> (r: Option<&ContractAnalysis>)
        requires
            self.wf(),
        ensures
            match r {
                Some(a) => self@.analyses.contains_key(addr@) && a@ == self@.analyses[addr@],
                None => !self@.analyses.contains_key(addr@),
            },
    {
        proof {
            kv::lemma_map_of_contains(self.analyses@, addr@);
        }
        match find_key(&self.analyses, addr) {
            Some(i) => {
                proof {
                    kv::lemma_map_of_index(self.analyses@, i as int);
                }
                Some(&self.analyses[i].1)
            },
            None => None,
        }
    }

    /// The optimization record at `addr`, if one exists.
    pub fn get_optimization(&self, addr: &Pubkey) -> (r: Option<&TransactionOptimization>)
        requires
            self.wf(),
        ensures
            match r {
                Some(a) => self@.optimizations.contains_key(addr@) && a@
                    == self@.optimizations[addr@],
                None => !self@.optimizations.contains_key(addr@),
            },
    {
        proof {
            kv::lemma_map_of_contains(self.optimizations@, addr@);
        }
        match find_key(&self.optimizations, addr) {
            Some(i) => {
                proof {
                    kv::lemma_map_of_index(self.optimizations@, i as int);
                }
                Some(&self.optimizations[i].1)
            },
            None => None,
        }
    }

    /// The security report record at `addr`, if one exists.
    pub fn get_monitor(&self, addr: &Pubkey) -> (r: Option<&SecurityMonitor>)
        requires
            self.wf(),
        ensures
            match r {
                Some(a) => self@.monitors.contains_key(addr@) && a@ == self@.monitors[addr@],
                None => !self@.monitors.contains_key(addr@),
            },
    {
        proof {
            kv::lemma_map_of_contains(self.monitors@, addr@);
        }
        match find_key(&self.monitors, addr) {
            Some(i) => {
                proof {
                    kv::lemma_map_of_index(self.monitors@, i as int);
                }
                Some(&self.monitors[i].1)
            },
            None => None,
        }
    }

    /// Records one contract analysis for the agent: a fresh `InProgress`
    /// analysis record at the given slot, and `total_analyses` one higher.
    /// Fails with `Unauthorized` when the caller does not own the agent,
    /// and with `AllocationError` when the agent does not exist, the slot is
    /// occupied or the counter is exhausted; a failed call changes nothing.
    pub fn analyze_contract(
        &mut self,
        accounts: AnalyzeContract,
        now: i64,
        contract_address: Pubkey,
        analysis_params: AnalysisParams,
    ) -> (r: Result<(), ManofError>)
        requires
            old(self).wf(),
        ensures
            final(self).wf(),
            r is Ok <==> tracker_ok(
                old(self)@,
                accounts.contract_analysis@,
                accounts.agent@,
                accounts.owner@,
                old(self)@.agents[accounts.agent@].performance_metrics.total_analyses,
                1,
            ),
            r is Ok ==> final(self)@ == analyze_apply(
                old(self)@,
                accounts.contract_analysis@,
                accounts.agent@,
                now,
                contract_address@,
                analysis_params,
            ),
            r is Err ==> *final(self) == *old(self) && r == Result::<(), ManofError>::Err(
                tracker_err(old(self)@, accounts.agent@, accounts.owner@),
            ),
    {
        proof {
            kv::lemma_map_of_contains(self.agents@, accounts.agent@);
        }
        let i: usize = match find_key(&self.agents, &accounts.agent) {
            None => {
                return Err(ManofError::AllocationError);
            },
            Some(i) => i,
        };
        proof {
            kv::lemma_map_of_index(self.agents@, i as int);
        }
        if !self.agents[i].1.owner.eq_key(&accounts.owner) {
            return Err(ManofError::Unauthorized);
        }
        if self.is_occupied(&accounts.contract_analysis) {
            return Err(ManofError::AllocationError);
        }
        if self.agents[i].1.performance_metrics.total_analyses == u64::MAX {
            return Err(ManofError::AllocationError);
        }
        let analysis = ContractAnalysis {
            contract: contract_address,
            agent: accounts.agent,
            timestamp: now,
            params: analysis_params,
            status: AnalysisStatus::InProgress,
        };
        proof {
            kv::lemma_map_of_contains(self.agents@, accounts.contract_analysis@);
            kv::lemma_map_of_contains(self.analyses@, accounts.contract_analysis@);
            kv::lemma_map_of_contains(self.optimizations@, accounts.contract_analysis@);
            kv::lemma_map_of_contains(self.monitors@, accounts.contract_analysis@);
            kv::lemma_map_of_push(self.analyses@, (accounts.contract_analysis, analysis));
        }
        self.analyses.push((accounts.contract_analysis, analysis));
        let ghost prev_agents = self.agents@;
        let entry = &mut self.agents[i];
        entry.1.performance_metrics.total_analyses = entry.1.performance_metrics.total_analyses
            + 1;
        proof {
            kv::lemma_map_of_update(prev_agents, i as int, self.agents@[i as int]);
            assert forall|x: int, y: int|
                0 <= x < y < self.analyses@.len() implies self.analyses@[x].0@
                != self.analyses@[y].0@ by {
                assert(self.analyses@[x] == old(self).analyses@[x]);
                if y < self.analyses@.len() - 1 {
                    assert(self.analyses@[y] == old(self).analyses@[y]);
                }
            }
            assert(self@ =~= analyze_apply(
                old(self)@,
                accounts.contract_analysis@,
                accounts.agent@,
                now,
                contract_address@,
                analysis_params,
            ));
        }
        Ok(())
    }

    /// Records one optimization job for the agent: a fresh `Processing`
    /// optimization record at the given slot, and `total_optimizations` one
    /// higher.  Failure behaviour matches `analyze_contract`.
    pub fn optimize_transaction(
        &mut self,
        accounts: OptimizeTransaction,
        now: i64,
        tx_data: TransactionData,
    ) -> (r: Result<(), ManofError>)
        requires
            old(self).wf(),
        ensures
            final(self).wf(),
            r is Ok <==> tracker_ok(
                old(self)@,
                accounts.transaction_optimization@,
                accounts.agent@,
                accounts.owner@,
                old(self)@.agents[accounts.agent@].performance_metrics.total_optimizations,
                1,
            ),
            r is Ok ==> final(self)@ == optimize_apply(
                old(self)@,
                accounts.transaction_optimization@,
                accounts.agent@,
                now,
                tx_data@,
            ),
            r is Err ==> *final(self) == *old(self) && r == Result::<(), ManofError>::Err(
                tracker_err(old(self)@, accounts.agent@, accounts.owner@),
            ),
    {
        proof {
            kv::lemma_map_of_contains(self.agents@, accounts.agent@);
        }
        let i: usize = match find_key(&self.agents, &accounts.agent) {
            None => {
                return Err(ManofError::AllocationError);
            },
            Some(i) => i,
        };
        proof {
            kv::lemma_map_of_index(self.agents@, i as int);
        }
        if !self.agents[i].1.owner.eq_key(&accounts.owner) {
            return Err(ManofError::Unauthorized);
        }
        if self.is_occupied(&accounts.transaction_optimization) {
            return Err(ManofError::AllocationError);
        }
        if self.agents[i].1.performance_metrics.total_optimizations == u64::MAX {
            return Err(ManofError::AllocationError);
        }
        let optimization = TransactionOptimization {
            transaction: tx_data,
            agent: accounts.agent,
            timestamp: now,
            status: OptimizationStatus::Processing,
        };
        proof {
            kv::lemma_map_of_contains(self.agents@, accounts.transaction_optimization@);
            kv::lemma_map_of_contains(self.analyses@, accounts.transaction_optimization@);
            kv::lemma_map_of_contains(self.optimizations@, accounts.transaction_optimization@);
            kv::lemma_map_of_contains(self.monitors@, accounts.transaction_optimization@);
            kv::lemma_map_of_push(
                self.optimizations@,
                (accounts.transaction_optimization, optimization),
            );
        }
        self.optimizations.push((accounts.transaction_optimization, optimization));
        let ghost prev_agents = self.agents@;
        let entry = &mut self.agents[i];
        entry.1.performance_metrics.total_optimizations =
            entry.1.performance_metrics.total_optimizations + 1;
        proof {
            kv::lemma_map_of_update(prev_agents, i as int, self.agents@[i as int]);
            assert forall|x: int, y: int|
                0 <= x < y < self.optimizations@.len() implies self.optimizations@[x].0@
                != self.optimizations@[y].0@ by {
                assert(self.optimizations@[x] == old(self).optimizations@[x]);
                if y < self.optimizations@.len() - 1 {
                    assert(self.optimizations@[y] == old(self).optimizations@[y]);
                }
            }
            assert(self@ =~= optimize_apply(
                old(self)@,
                accounts.transaction_optimization@,
                accounts.agent@,
                now,
                tx_data@,
            ));
        }
        Ok(())
    }

    /// Records one security report for the agent: a fresh monitor record at
    /// the given slot, and `threats_prevented` raised by exactly the
    /// reported detection count — a report of zero threats leaves it as it
    /// was.  Failure behaviour matches `analyze_contract`.
    pub fn update_security_status(
        &mut self,
        accounts: UpdateSecurity,
        now: i64,
        security_data: SecurityData,
    ) -> (r: Result<(), ManofError>)
        requires
            old(self).wf(),
        ensures
            final(self).wf(),
            r is Ok <==> tracker_ok(
                old(self)@,
                accounts.security_monitor@,
                accounts.agent@,
                accounts.owner@,
                old(self)@.agents[accounts.agent@].performance_metrics.threats_prevented,
                security_data.threats_detected,
            ),
            r is Ok ==> final(self)@ == security_apply(
                old(self)@,
                accounts.security_monitor@,
                accounts.agent@,
                now,
                security_data,
            ),
            r is Err ==> *final(self) == *old(self) && r == Result::<(), ManofError>::Err(
                tracker_err(old(self)@, accounts.agent@, accounts.owner@),
            ),
    {
        proof {
            kv::lemma_map_of_contains(self.agents@, accounts.agent@);
        }
        let i: usize = match find_key(&self.agents, &accounts.agent) {
            None => {
                return Err(ManofError::AllocationError);
            },
            Some(i) => i,
        };
        proof {
            kv::lemma_map_of_index(self.agents@, i as int);
        }
        if !self.agents[i].1.owner.eq_key(&accounts.owner) {
            return Err(ManofError::Unauthorized);
        }
        if self.is_occupied(&accounts.security_monitor) {
            return Err(ManofError::AllocationError);
        }
        let headroom: u64 = u64::MAX - self.agents[i].1.performance_metrics.threats_prevented;
        if security_data.threats_detected > headroom {
            return Err(ManofError::AllocationError);
        }
        let monitor = SecurityMonitor { agent: accounts.agent, data: security_data, last_update: now };
        proof {
            kv::lemma_map_of_contains(self.agents@, accounts.security_monitor@);
            kv::lemma_map_of_contains(self.analyses@, accounts.security_monitor@);
            kv::lemma_map_of_contains(self.optimizations@, accounts.security_monitor@);
            kv::lemma_map_of_contains(self.monitors@, accounts.security_monitor@);
            kv::lemma_map_of_push(self.monitors@, (accounts.security_monitor, monitor));
        }
        self.monitors.push((accounts.security_monitor, monitor));
        let ghost prev_agents = self.agents@;
        if security_data.threats_detected > 0 {
            let entry = &mut self.agents[i];
            entry.1.performance_metrics.threats_prevented =
                entry.1.performance_metrics.threats_prevented + security_data.threats_detected;
        }
        proof {
            if security_data.threats_detected > 0 {
                kv::lemma_map_of_update(prev_agents, i as int, self.agents@[i as int]);
            } else {
                kv::lemma_map_of_update(prev_agents, i as int, prev_agents[i as int]);
                assert(self.agents@ =~= prev_agents.update(i as int, prev_agents[i as int]));
            }
            assert forall|x: int, y: int|
                0 <= x < y < self.monitors@.len() implies self.monitors@[x].0@
                != self.monitors@[y].0@ by {
                assert(self.monitors@[x] == old(self).monitors@[x]);
                if y < self.monitors@.len() - 1 {
                    assert(self.monitors@[y] == old(self).monitors@[y]);
                }
            }
            assert(self@ =~= security_apply(
                old(self)@,
                accounts.security_monitor@,
                accounts.agent@,
                now,
                security_data,
            ));
        }
        Ok(())
    }
}


} // verus!
