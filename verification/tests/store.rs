use manof::records::{Agent, MAX_NAME_BYTES};
use manof::store::{
    AnalyzeContract, InitializeAgent, OptimizeTransaction, RecordStore, UpdateSecurity,
};
use manof::types::{
    AgentConfig, AnalysisParams, ManofError, Pubkey, RiskLevel, SecurityData, SecurityLevel,
    TransactionData,
};

fn key(n: u8) -> Pubkey {
    let mut b = [0u8; 32];
    b[0] = n;
    b[31] = n.wrapping_mul(7);
    Pubkey::new(b)
}

fn default_params() -> AnalysisParams {
    AnalysisParams { depth: 5, include_security: true, optimize_gas: false }
}

fn security(threats: u64, risk: RiskLevel, vulns: u64) -> SecurityData {
    SecurityData { threats_detected: threats, risk_level: risk, vulnerability_count: vulns }
}

fn new_agent(store: &mut RecordStore, addr: Pubkey, owner: Pubkey, name: &str) {
    let r = store.initialize_agent(
        InitializeAgent { agent: addr, owner },
        name.to_string(),
        AgentConfig::default(),
    );
    assert!(r.is_ok());
}

#[test]
fn initialize_agent_fresh_state() {
    let mut store = RecordStore::new();
    let addr = key(1);
    let owner = key(2);
    new_agent(&mut store, addr, owner, "sentinel");
    let a: &Agent = store.get_agent(&addr).expect("agent exists");
    assert!(a.is_active);
    assert_eq!(a.owner, owner);
    assert_eq!(a.name, "sentinel");
    assert_eq!(a.performance_metrics.total_analyses, 0);
    assert_eq!(a.performance_metrics.total_optimizations, 0);
    assert_eq!(a.performance_metrics.threats_prevented, 0);
    assert_eq!(a.config.security_level, SecurityLevel::Medium);
    assert_eq!(a.config.analysis_threshold, 0);
}

#[test]
fn initialize_agent_occupied_slot_rejected() {
    let mut store = RecordStore::new();
    let addr = key(1);
    new_agent(&mut store, addr, key(2), "first");
    let r = store.initialize_agent(
        InitializeAgent { agent: addr, owner: key(3) },
        "second".to_string(),
        AgentConfig::default(),
    );
    assert_eq!(r, Err(ManofError::AllocationError));
    // The original record is untouched.
    assert_eq!(store.get_agent(&addr).unwrap().name, "first");
}

#[test]
fn initialize_agent_name_too_long_rejected() {
    let mut store = RecordStore::new();
    let long_name: String = "x".repeat(MAX_NAME_BYTES + 1);
    let r = store.initialize_agent(
        InitializeAgent { agent: key(1), owner: key(2) },
        long_name,
        AgentConfig::default(),
    );
    assert_eq!(r, Err(ManofError::AllocationError));
    assert!(store.get_agent(&key(1)).is_none());
    let edge_name: String = "x".repeat(MAX_NAME_BYTES);
    let r2 = store.initialize_agent(
        InitializeAgent { agent: key(1), owner: key(2) },
        edge_name,
        AgentConfig::default(),
    );
    assert!(r2.is_ok());
}

#[test]
fn analyze_contract_creates_record_and_counts() {
    let mut store = RecordStore::new();
    let agent = key(1);
    let owner = key(2);
    new_agent(&mut store, agent, owner, "analyst");
    let slot = key(10);
    let contract = key(20);
    let r = store.analyze_contract(
        AnalyzeContract { contract_analysis: slot, agent, owner },
        1_700_000_000,
        contract,
        default_params(),
    );
    assert!(r.is_ok());
    let rec = store.get_analysis(&slot).expect("analysis recorded");
    assert_eq!(rec.contract, contract);
    assert_eq!(rec.agent, agent);
    assert_eq!(rec.timestamp, 1_700_000_000);
    assert_eq!(rec.params, default_params());
    assert_eq!(rec.status, manof::types::AnalysisStatus::InProgress);
    assert_eq!(store.get_agent(&agent).unwrap().performance_metrics.total_analyses, 1);
}

#[test]
fn optimize_transaction_creates_record_and_counts() {
    let mut store = RecordStore::new();
    let agent = key(1);
    let owner = key(2);
    new_agent(&mut store, agent, owner, "optimizer");
    let slot = key(11);
    let tx = TransactionData { instructions: vec![1, 2, 3, 4], gas_limit: 900_000, priority: 3 };
    let r = store.optimize_transaction(
        OptimizeTransaction { transaction_optimization: slot, agent, owner },
        77,
        tx.clone(),
    );
    assert!(r.is_ok());
    let rec = store.get_optimization(&slot).expect("optimization recorded");
    assert_eq!(rec.transaction, tx);
    assert_eq!(rec.agent, agent);
    assert_eq!(rec.timestamp, 77);
    assert_eq!(rec.status, manof::types::OptimizationStatus::Processing);
    assert_eq!(store.get_agent(&agent).unwrap().performance_metrics.total_optimizations, 1);
}

#[test]
fn update_security_status_records_and_counts_threats() {
    let mut store = RecordStore::new();
    let agent = key(1);
    let owner = key(2);
    new_agent(&mut store, agent, owner, "guard");
    let slot = key(12);
    let data = security(4, RiskLevel::Critical, 9);
    let r = store.update_security_status(
        UpdateSecurity { security_monitor: slot, agent, owner },
        123_456,
        data,
    );
    assert!(r.is_ok());
    let rec = store.get_monitor(&slot).expect("monitor recorded");
    assert_eq!(rec.agent, agent);
    assert_eq!(rec.data, data);
    assert_eq!(rec.last_update, 123_456);
    assert_eq!(store.get_agent(&agent).unwrap().performance_metrics.threats_prevented, 4);
}

#[test]
fn zero_threats_leave_counter_unchanged() {
    let mut store = RecordStore::new();
    let agent = key(1);
    let owner = key(2);
    new_agent(&mut store, agent, owner, "guard");
    let r1 = store.update_security_status(
        UpdateSecurity { security_monitor: key(12), agent, owner },
        1,
        security(3, RiskLevel::Warning, 1),
    );
    assert!(r1.is_ok());
    let r2 = store.update_security_status(
        UpdateSecurity { security_monitor: key(13), agent, owner },
        2,
        security(0, RiskLevel::Safe, 0),
    );
    assert!(r2.is_ok());
    assert_eq!(store.get_agent(&agent).unwrap().performance_metrics.threats_prevented, 3);
    // Both reports exist independently.
    assert!(store.get_monitor(&key(12)).is_some());
    assert!(store.get_monitor(&key(13)).is_some());
}

#[test]
fn tracker_ops_against_missing_agent_fail_without_effect() {
    let mut store = RecordStore::new();
    let ghost_agent = key(9);
    let owner = key(2);
    let r1 = store.analyze_contract(
        AnalyzeContract { contract_analysis: key(10), agent: ghost_agent, owner },
        1,
        key(20),
        default_params(),
    );
    assert_eq!(r1, Err(ManofError::AllocationError));
    let r2 = store.optimize_transaction(
        OptimizeTransaction { transaction_optimization: key(11), agent: ghost_agent, owner },
        1,
        TransactionData { instructions: vec![], gas_limit: 0, priority: 0 },
    );
    assert_eq!(r2, Err(ManofError::AllocationError));
    let r3 = store.update_security_status(
        UpdateSecurity { security_monitor: key(12), agent: ghost_agent, owner },
        1,
        security(1, RiskLevel::Safe, 0),
    );
    assert_eq!(r3, Err(ManofError::AllocationError));
    assert!(store.get_analysis(&key(10)).is_none());
    assert!(store.get_optimization(&key(11)).is_none());
    assert!(store.get_monitor(&key(12)).is_none());
}

#[test]
fn occupied_sub_record_slot_rejected() {
    let mut store = RecordStore::new();
    let agent = key(1);
    let owner = key(2);
    new_agent(&mut store, agent, owner, "a");
    // The agent's own address counts as occupied.
    let r = store.analyze_contract(
        AnalyzeContract { contract_analysis: agent, agent, owner },
        1,
        key(20),
        default_params(),
    );
    assert_eq!(r, Err(ManofError::AllocationError));
    assert_eq!(store.get_agent(&agent).unwrap().performance_metrics.total_analyses, 0);
    // A slot taken by an earlier analysis cannot be reused.
    assert!(store
        .analyze_contract(
            AnalyzeContract { contract_analysis: key(10), agent, owner },
            1,
            key(20),
            default_params(),
        )
        .is_ok());
    let r2 = store.analyze_contract(
        AnalyzeContract { contract_analysis: key(10), agent, owner },
        2,
        key(21),
        default_params(),
    );
    assert_eq!(r2, Err(ManofError::AllocationError));
    assert_eq!(store.get_agent(&agent).unwrap().performance_metrics.total_analyses, 1);
}

#[test]
fn scenario_counters_track_operations() {
    let mut store = RecordStore::new();
    let agent = key(1);
    let owner = key(2);
    new_agent(&mut store, agent, owner, "A");
    let m = store.get_agent(&agent).unwrap().performance_metrics;
    assert_eq!(
        (m.total_analyses, m.total_optimizations, m.threats_prevented),
        (0, 0, 0)
    );
    for (i, contract) in [(30u8, 40u8), (31, 41)] {
        let r = store.analyze_contract(
            AnalyzeContract { contract_analysis: key(i), agent, owner },
            i as i64,
            key(contract),
            default_params(),
        );
        assert!(r.is_ok());
    }
    assert_eq!(store.get_agent(&agent).unwrap().performance_metrics.total_analyses, 2);
    let r = store.update_security_status(
        UpdateSecurity { security_monitor: key(32), agent, owner },
        5,
        security(3, RiskLevel::Warning, 2),
    );
    assert!(r.is_ok());
    assert_eq!(store.get_agent(&agent).unwrap().performance_metrics.threats_prevented, 3);
    let r = store.update_security_status(
        UpdateSecurity { security_monitor: key(33), agent, owner },
        6,
        security(0, RiskLevel::Safe, 0),
    );
    assert!(r.is_ok());
    let m = store.get_agent(&agent).unwrap().performance_metrics;
    assert_eq!(m.threats_prevented, 3);
    assert_eq!(m.total_analyses, 2);
    assert_eq!(m.total_optimizations, 0);
}

#[test]
fn non_owner_is_unauthorized_and_changes_nothing() {
    let mut store = RecordStore::new();
    let agent = key(1);
    let owner = key(2);
    let stranger = key(3);
    new_agent(&mut store, agent, owner, "A");
    let r = store.optimize_transaction(
        OptimizeTransaction {
            transaction_optimization: key(10),
            agent,
            owner: stranger,
        },
        1,
        TransactionData { instructions: vec![9], gas_limit: 5, priority: 1 },
    );
    assert_eq!(r, Err(ManofError::Unauthorized));
    assert_eq!(store.get_agent(&agent).unwrap().performance_metrics.total_optimizations, 0);
    assert!(store.get_optimization(&key(10)).is_none());
    let r2 = store.analyze_contract(
        AnalyzeContract { contract_analysis: key(11), agent, owner: stranger },
        1,
        key(20),
        default_params(),
    );
    assert_eq!(r2, Err(ManofError::Unauthorized));
    let r3 = store.update_security_status(
        UpdateSecurity { security_monitor: key(12), agent, owner: stranger },
        1,
        security(5, RiskLevel::Critical, 5),
    );
    assert_eq!(r3, Err(ManofError::Unauthorized));
    assert_eq!(store.get_agent(&agent).unwrap().performance_metrics.threats_prevented, 0);
}

#[test]
fn two_agents_count_independently() {
    let mut store = RecordStore::new();
    let (a1, o1) = (key(1), key(2));
    let (a2, o2) = (key(3), key(4));
    new_agent(&mut store, a1, o1, "first");
    new_agent(&mut store, a2, o2, "second");
    assert!(store
        .analyze_contract(
            AnalyzeContract { contract_analysis: key(10), agent: a1, owner: o1 },
            1,
            key(20),
            default_params(),
        )
        .is_ok());
    assert_eq!(store.get_agent(&a1).unwrap().performance_metrics.total_analyses, 1);
    assert_eq!(store.get_agent(&a2).unwrap().performance_metrics.total_analyses, 0);
}
