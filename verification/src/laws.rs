//! Properties of whole runs of operations.
//!
//! [`Op`] names one operation together with its inputs; [`op_apply`] is the
//! store's transition function, refused operations leaving the store as it
//! was.  Each executable operation's contract equates it with `op_ok` /
//! `op_apply` on the store's view, so the lemmas here carry over to any run
//! of the executable operations.

use crate::store::{
    analyze_apply, init_apply, init_ok, optimize_apply, security_apply, tracker_err, tracker_ok,
    zero_metrics, StoreModel,
};
use crate::types::{
    AgentConfigV, AnalysisParams, ManofError, SecurityData, TransactionDataV,
};
use vstd::prelude::*;

verus! {

/// One store operation with its inputs, at the level of views.
pub ghost enum Op {
    InitializeAgent { agent: Seq<u8>, owner: Seq<u8>, name: Seq<char>, config: AgentConfigV },
    AnalyzeContract {
        contract_analysis: Seq<u8>,
        agent: Seq<u8>,
        caller: Seq<u8>,
        now: i64,
        contract: Seq<u8>,
        params: AnalysisParams,
    },
    OptimizeTransaction {
        transaction_optimization: Seq<u8>,
        agent: Seq<u8>,
        caller: Seq<u8>,
        now: i64,
        tx: TransactionDataV,
    },
    UpdateSecurity {
        security_monitor: Seq<u8>,
        agent: Seq<u8>,
        caller: Seq<u8>,
        now: i64,
        data: SecurityData,
    },
}

impl Op {
    /// The operation is one of the three tracker operations, which require
    /// an existing agent; agent creation is not one of them.
    pub open spec fn is_tracker(self) -> bool {
        !(self is InitializeAgent)
    }

    /// The agent handle the operation runs against.
    pub open spec fn agent(self) -> Seq<u8> {
        match self {
            Op::InitializeAgent { agent, .. } => agent,
            Op::AnalyzeContract { agent, .. } => agent,
            Op::OptimizeTransaction { agent, .. } => agent,
            Op::UpdateSecurity { agent, .. } => agent,
        }
    }

    /// The identity the operation is invoked under.
    pub open spec fn caller(self) -> Seq<u8> {
        match self {
            Op::InitializeAgent { owner, .. } => owner,
            Op::AnalyzeContract { caller, .. } => caller,
            Op::OptimizeTransaction { caller, .. } => caller,
            Op::UpdateSecurity { caller, .. } => caller,
        }
    }
}

/// Whether the operation succeeds against store `m`; matches the
/// success condition of the executable operation it names.
pub open spec fn op_ok(m: StoreModel, op: Op) -> bool {
    match op {
        Op::InitializeAgent { agent, name, .. } => init_ok(m, agent, name),
        Op::AnalyzeContract { contract_analysis, agent, caller, .. } => tracker_ok(
            m,
            contract_analysis,
            agent,
            caller,
            m.agents[agent].performance_metrics.total_analyses,
            1,
        ),
        Op::OptimizeTransaction { transaction_optimization, agent, caller, .. } => tracker_ok(
            m,
            transaction_optimization,
            agent,
            caller,
            m.agents[agent].performance_metrics.total_optimizations,
            1,
        ),
        Op::UpdateSecurity { security_monitor, agent, caller, data, .. } => tracker_ok(
            m,
            security_monitor,
            agent,
            caller,
            m.agents[agent].performance_metrics.threats_prevented,
            data.threats_detected,
        ),
    }
}

/// The store after the operation: its effect when it succeeds, the store
/// unchanged when it is refused.
pub open spec fn op_apply(m: StoreModel, op: Op) -> StoreModel {
    if !op_ok(m, op) {
        m
    } else {
        match op {
            Op::InitializeAgent { agent, owner, name, config } => init_apply(
                m,
                agent,
                owner,
                name,
                config,
            ),
            Op::AnalyzeContract { contract_analysis, agent, now, contract, params, .. } =>
                analyze_apply(m, contract_analysis, agent, now, contract, params),
            Op::OptimizeTransaction { transaction_optimization, agent, now, tx, .. } =>
                optimize_apply(m, transaction_optimization, agent, now, tx),
            Op::UpdateSecurity { security_monitor, agent, now, data, .. } => security_apply(
                m,
                security_monitor,
                agent,
                now,
                data,
            ),
        }
    }
}

/// The store after a whole run of operations.
pub open spec fn apply_ops(m: StoreModel, ops: Seq<Op>) -> StoreModel
    decreases ops.len(),
{
    if ops.len() == 0 {
        m
    } else {
        op_apply(apply_ops(m, ops.drop_last()), ops.last())
    }
}

/// Every operation of the run succeeds in the state it meets.
pub open spec fn all_ok(m: StoreModel, ops: Seq<Op>) -> bool
    decreases ops.len(),
{
    if ops.len() == 0 {
        true
    } else {
        all_ok(m, ops.drop_last()) && op_ok(apply_ops(m, ops.drop_last()), ops.last())
    }
}

/// How many analyses the run records against `agent`.
pub open spec fn count_analyses(ops: Seq<Op>, agent: Seq<u8>) -> nat
    decreases ops.len(),
{
    if ops.len() == 0 {
        0
    } else {
        count_analyses(ops.drop_last(), agent) + (match ops.last() {
            Op::AnalyzeContract { agent: a, .. } => if a == agent {
                1nat
            } else {
                0nat
            },
            _ => 0nat,
        })
    }
}

/// A newly created agent is active and has every counter at zero.
pub proof fn lemma_new_agent_initial_state(
    m: StoreModel,
    addr: Seq<u8>,
    owner: Seq<u8>,
    name: Seq<char>,
    config: AgentConfigV,
)
    requires
        init_ok(m, addr, name),
    ensures
        ({
            let a = init_apply(m, addr, owner, name, config).agents[addr];
            &&& a.is_active
            &&& a.performance_metrics == zero_metrics()
            &&& a.owner == owner
            &&& a.name == name
            &&& a.config == config
        }),
{
}

/// Over any run of successful operations, an agent's analysis counter grows
/// by exactly the number of analyses recorded against it, however the run
/// interleaves agent creations, optimizations and security updates.
pub proof fn lemma_total_analyses_counts_runs(m: StoreModel, ops: Seq<Op>, a: Seq<u8>)
    requires
        m.agents.contains_key(a),
        all_ok(m, ops),
    ensures
        apply_ops(m, ops).agents.contains_key(a),
        apply_ops(m, ops).agents[a].owner == m.agents[a].owner,
        apply_ops(m, ops).agents[a].performance_metrics.total_analyses
            == m.agents[a].performance_metrics.total_analyses + count_analyses(ops, a),
    decreases ops.len(),
{
    if ops.len() > 0 {
        let prefix = ops.drop_last();
        lemma_total_analyses_counts_runs(m, prefix, a);
    }
}

/// A security update with no detected threats leaves the agent's counters
/// exactly as they were; one with `k > 0` detected threats raises
/// `threats_prevented` by exactly `k` and touches nothing else.
pub proof fn lemma_security_update_exact(
    m: StoreModel,
    rec: Seq<u8>,
    a: Seq<u8>,
    caller: Seq<u8>,
    now: i64,
    data: SecurityData,
)
    requires
        tracker_ok(
            m,
            rec,
            a,
            caller,
            m.agents[a].performance_metrics.threats_prevented,
            data.threats_detected,
        ),
    ensures
        ({
            let after = security_apply(m, rec, a, now, data).agents[a];
            let before = m.agents[a];
            &&& data.threats_detected == 0 ==> after == before
            &&& after.performance_metrics.threats_prevented
                == before.performance_metrics.threats_prevented + data.threats_detected
            &&& after.performance_metrics.total_analyses
                == before.performance_metrics.total_analyses
            &&& after.performance_metrics.total_optimizations
                == before.performance_metrics.total_optimizations
            &&& after.is_active == before.is_active
        }),
{
    let after = security_apply(m, rec, a, now, data).agents[a];
    let before = m.agents[a];
    if data.threats_detected == 0 {
        assert(after =~= before);
    }
}

/// A tracker operation against a handle no agent record lives at is refused
/// with `AllocationError` and changes nothing.
pub proof fn lemma_missing_agent_rejected(m: StoreModel, op: Op)
    requires
        op.is_tracker(),
        !m.agents.contains_key(op.agent()),
    ensures
        !op_ok(m, op),
        op_apply(m, op) == m,
        tracker_err(m, op.agent(), op.caller()) == ManofError::AllocationError,
{
}

/// A tracker operation invoked by anyone but the agent's owner is refused
/// with `Unauthorized` and changes nothing.
pub proof fn lemma_unauthorized_rejected(m: StoreModel, op: Op)
    requires
        op.is_tracker(),
        m.agents.contains_key(op.agent()),
        m.agents[op.agent()].owner != op.caller(),
    ensures
        !op_ok(m, op),
        op_apply(m, op) == m,
        tracker_err(m, op.agent(), op.caller()) == ManofError::Unauthorized,
{
}


} // verus!
