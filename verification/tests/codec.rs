use manof::codec::{
    decode_agent, decode_analysis, decode_monitor, decode_optimization, encode_agent,
    encode_analysis, encode_monitor, encode_optimization,
};
use manof::records::{Agent, ContractAnalysis, SecurityMonitor, TransactionOptimization};
use manof::types::{
    AgentConfig, AnalysisParams, AnalysisStatus, OptimizationStatus, ParamMap,
    PerformanceMetrics, Pubkey, RiskLevel, SecurityData, SecurityLevel, TransactionData,
};

fn key(n: u8) -> Pubkey {
    let mut b = [0u8; 32];
    b[0] = n;
    b[15] = n.wrapping_add(100);
    Pubkey::new(b)
}

fn sample_agent() -> Agent {
    let mut params = ParamMap::new();
    params.insert("gas_margin".to_string(), 15);
    params.insert("retry_limit".to_string(), 3);
    params.insert("gas_margin".to_string(), 20);
    Agent {
        owner: key(7),
        name: "wächter-Ω".to_string(),
        config: AgentConfig {
            analysis_threshold: 250,
            optimization_params: params,
            security_level: SecurityLevel::High,
        },
        is_active: true,
        performance_metrics: PerformanceMetrics {
            total_analyses: 11,
            total_optimizations: 22,
            threats_prevented: 33,
        },
    }
}

#[test]
fn agent_round_trip() {
    let a = sample_agent();
    let bytes = encode_agent(&a);
    let back = decode_agent(&bytes).expect("agent decodes");
    assert_eq!(back, a);
    // The replaced key kept its replacement value through the trip.
    assert_eq!(back.config.optimization_params.get(&"gas_margin".to_string()), Some(20));
    assert_eq!(back.config.optimization_params.get(&"retry_limit".to_string()), Some(3));
    assert_eq!(back.config.optimization_params.len(), 2);
}

#[test]
fn agent_round_trip_empty_fields() {
    let a = Agent {
        owner: key(0),
        name: String::new(),
        config: AgentConfig::default(),
        is_active: true,
        performance_metrics: PerformanceMetrics::default(),
    };
    let bytes = encode_agent(&a);
    assert_eq!(bytes.len(), 90);
    assert_eq!(decode_agent(&bytes).expect("agent decodes"), a);
}

#[test]
fn analysis_round_trip() {
    let a = ContractAnalysis {
        contract: key(1),
        agent: key(2),
        timestamp: -5,
        params: AnalysisParams { depth: 255, include_security: false, optimize_gas: true },
        status: AnalysisStatus::InProgress,
    };
    let bytes = encode_analysis(&a);
    assert_eq!(bytes.len(), 84);
    assert_eq!(decode_analysis(&bytes).expect("analysis decodes"), a);
}

#[test]
fn optimization_round_trip() {
    let o = TransactionOptimization {
        transaction: TransactionData {
            instructions: vec![0, 255, 1, 254, 7],
            gas_limit: u64::MAX,
            priority: 9,
        },
        agent: key(3),
        timestamp: i64::MIN,
        status: OptimizationStatus::Processing,
    };
    let bytes = encode_optimization(&o);
    assert_eq!(bytes.len(), 66 + 5);
    assert_eq!(decode_optimization(&bytes).expect("optimization decodes"), o);
    let empty = TransactionOptimization {
        transaction: TransactionData { instructions: vec![], gas_limit: 0, priority: 0 },
        agent: key(4),
        timestamp: 0,
        status: OptimizationStatus::Failed,
    };
    let bytes2 = encode_optimization(&empty);
    assert_eq!(decode_optimization(&bytes2).expect("optimization decodes"), empty);
}

#[test]
fn monitor_round_trip() {
    let m = SecurityMonitor {
        agent: key(5),
        data: SecurityData {
            threats_detected: 3,
            risk_level: RiskLevel::Critical,
            vulnerability_count: 12,
        },
        last_update: 1_700_000_123,
    };
    let bytes = encode_monitor(&m);
    assert_eq!(bytes.len(), 65);
    assert_eq!(decode_monitor(&bytes).expect("monitor decodes"), m);
}

#[test]
fn known_bytes_of_a_monitor_record() {
    let m = SecurityMonitor {
        agent: Pubkey::new([0u8; 32]),
        data: SecurityData {
            threats_detected: 1,
            risk_level: RiskLevel::Warning,
            vulnerability_count: 258,
        },
        last_update: 2,
    };
    let bytes = encode_monitor(&m);
    let mut expected = vec![4u8, 0, 0, 0, 0, 0, 0, 0];
    expected.extend_from_slice(&[0u8; 32]);
    expected.extend_from_slice(&[1, 0, 0, 0, 0, 0, 0, 0]);
    expected.push(1);
    expected.extend_from_slice(&[2, 1, 0, 0, 0, 0, 0, 0]);
    expected.extend_from_slice(&[2, 0, 0, 0, 0, 0, 0, 0]);
    assert_eq!(bytes, expected);
}

#[test]
fn decode_rejects_malformed_bytes() {
    // Wrong length.
    assert!(decode_monitor(&vec![0u8; 64]).is_none());
    assert!(decode_analysis(&vec![0u8; 83]).is_none());
    assert!(decode_agent(&vec![0u8; 89]).is_none());
    assert!(decode_optimization(&vec![0u8; 65]).is_none());
    // Wrong tag: a monitor's bytes are no analysis.
    let m = SecurityMonitor {
        agent: key(5),
        data: SecurityData {
            threats_detected: 0,
            risk_level: RiskLevel::Safe,
            vulnerability_count: 0,
        },
        last_update: 0,
    };
    let mbytes = encode_monitor(&m);
    assert!(decode_agent(&mbytes).is_none());
    // Out-of-range status byte.
    let a = ContractAnalysis {
        contract: key(1),
        agent: key(2),
        timestamp: 0,
        params: AnalysisParams { depth: 0, include_security: false, optimize_gas: false },
        status: AnalysisStatus::Failed,
    };
    let mut abytes = encode_analysis(&a);
    abytes[83] = 3;
    assert!(decode_analysis(&abytes).is_none());
    // Out-of-range boolean byte.
    let mut bbytes = encode_analysis(&a);
    bbytes[81] = 2;
    assert!(decode_analysis(&bbytes).is_none());
}

#[test]
fn decode_agent_rejects_duplicate_parameter_keys() {
    let mut raw = ParamMap::new();
    raw.entries = vec![("k".to_string(), 1), ("k".to_string(), 2)];
    let a = Agent {
        owner: key(1),
        name: "dup".to_string(),
        config: AgentConfig {
            analysis_threshold: 0,
            optimization_params: raw,
            security_level: SecurityLevel::Low,
        },
        is_active: false,
        performance_metrics: PerformanceMetrics::default(),
    };
    let bytes = encode_agent(&a);
    assert!(decode_agent(&bytes).is_none());
}

#[test]
fn param_map_binds_and_replaces() {
    let mut m = ParamMap::new();
    assert_eq!(m.len(), 0);
    assert!(!m.contains_key(&"a".to_string()));
    m.insert("a".to_string(), 1);
    m.insert("b".to_string(), 2);
    assert_eq!(m.get(&"a".to_string()), Some(1));
    assert_eq!(m.get(&"b".to_string()), Some(2));
    assert_eq!(m.get(&"c".to_string()), None);
    m.insert("a".to_string(), 9);
    assert_eq!(m.get(&"a".to_string()), Some(9));
    assert_eq!(m.len(), 2);
    assert!(m.contains_key(&"b".to_string()));
}

#[test]
fn security_level_default_is_medium() {
    assert_eq!(SecurityLevel::default(), SecurityLevel::Medium);
    let c = AgentConfig::default();
    assert_eq!(c.security_level, SecurityLevel::Medium);
    assert_eq!(c.analysis_threshold, 0);
    assert_eq!(c.optimization_params.len(), 0);
}
