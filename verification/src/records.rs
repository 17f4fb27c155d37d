//! The four persisted record types and their mathematical views.

use crate::types::{
    AgentConfig, AgentConfigV, AnalysisParams, AnalysisStatus, OptimizationStatus,
    PerformanceMetrics, Pubkey, SecurityData, TransactionData, TransactionDataV,
};
use vstd::prelude::*;
use vstd::utf8::encode_utf8;

verus! {

/// Longest UTF-8 encoding of an agent name, in bytes: the agent record's
/// storage slot reserves this much room for the name.
pub const MAX_NAME_BYTES: usize = 196;

/// The primary tracked entity: owner identity, display name, configuration
/// and aggregated counters.
#[derive(Clone, Debug, PartialEq, Eq)]
pub struct Agent {
    pub owner: Pubkey,
    pub name: String,
    pub config: AgentConfig,
    pub is_active: bool,
    pub performance_metrics: PerformanceMetrics,
}

/// Mathematical value of an [`Agent`].
pub ghost struct AgentV {
    pub owner: Seq<u8>,
    pub name: Seq<char>,
    pub config: AgentConfigV,
    pub is_active: bool,
    pub performance_metrics: PerformanceMetrics,
}

impl View for Agent {
    type V = AgentV;

    open spec fn view(&self) -> AgentV {
        AgentV {
            owner: self.owner@,
            name: self.name@,
            config: self.config@,
            is_active: self.is_active,
            performance_metrics: self.performance_metrics,
        }
    }
}

/// Bounds that fit an [`AgentV`] into its fixed storage slot.
pub open spec fn agent_v_wf(a: AgentV) -> bool {
    &&& encode_utf8(a.name).len() <= MAX_NAME_BYTES
    &&& a.config.optimization_params.dom().finite()
}

impl Agent {
    /// The name fits its slot and the configuration map has unique keys.
    pub open spec fn wf(&self) -> bool {
        &&& self.config.wf()
        &&& agent_v_wf(self@)
    }
}

/// One contract analysis request; starts — and in the current operation set
/// stays — `InProgress`.
#[derive(Clone, Debug, PartialEq, Eq)]
pub struct ContractAnalysis {
    pub contract: Pubkey,
    pub agent: Pubkey,
    pub timestamp: i64,
    pub params: AnalysisParams,
    pub status: AnalysisStatus,
}

/// Mathematical value of a [`ContractAnalysis`].
pub ghost struct ContractAnalysisV {
    pub contract: Seq<u8>,
    pub agent: Seq<u8>,
    pub timestamp: i64,
    pub params: AnalysisParams,
    pub status: AnalysisStatus,
}

impl View for ContractAnalysis {
    type V = ContractAnalysisV;

    open spec fn view(&self) -> ContractAnalysisV {
        ContractAnalysisV {
            contract: self.contract@,
            agent: self.agent@,
            timestamp: self.timestamp,
            params: self.params,
            status: self.status,
        }
    }
}

/// One transaction optimization job; starts — and in the current operation
/// set stays — `Processing`.
#[derive(Clone, Debug, PartialEq, Eq)]
pub struct TransactionOptimization {
    pub transaction: TransactionData,
    pub agent: Pubkey,
    pub timestamp: i64,
    pub status: OptimizationStatus,
}

/// Mathematical value of a [`TransactionOptimization`].
pub ghost struct TransactionOptimizationV {
    pub transaction: TransactionDataV,
    pub agent: Seq<u8>,
    pub timestamp: i64,
    pub status: OptimizationStatus,
}

impl View for TransactionOptimization {
    type V = TransactionOptimizationV;

    open spec fn view(&self) -> TransactionOptimizationV {
        TransactionOptimizationV {
            transaction: self.transaction@,
            agent: self.agent@,
            timestamp: self.timestamp,
            status: self.status,
        }
    }
}

/// One security report.  Every report is a fresh record; a later report does
/// not overwrite an earlier one.
#[derive(Clone, Copy, Debug, PartialEq, Eq)]
pub struct SecurityMonitor {
    pub agent: Pubkey,
    pub data: SecurityData,
    pub last_update: i64,
}

/// Mathematical value of a [`SecurityMonitor`].
pub ghost struct SecurityMonitorV {
    pub agent: Seq<u8>,
    pub data: SecurityData,
    pub last_update: i64,
}

impl View for SecurityMonitor {
    type V = SecurityMonitorV;

    open spec fn view(&self) -> SecurityMonitorV {
        SecurityMonitorV { agent: self.agent@, data: self.data, last_update: self.last_update }
    }
}

} // verus!
