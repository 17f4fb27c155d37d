//! The fixed binary encoding of the four record types.
//!
//! Every record encodes as an 8-byte little-endian type tag followed by its
//! fields in declaration order: integers little-endian, booleans and enums
//! as one byte, addresses as their 32 raw bytes, and names, instruction
//! payloads and parameter lists behind a little-endian length prefix.  The
//! encoding loses nothing: decoding is exact inverse on every well-formed
//! record, stated as the decoders' contracts together with the injectivity
//! lemmas here.

use crate::kv;
use crate::records::{
    Agent, ContractAnalysis, SecurityMonitor, TransactionOptimization,
};
use crate::types::{
    AgentConfig, AnalysisParams, AnalysisStatus, OptimizationStatus, ParamMap,
    PerformanceMetrics, Pubkey, RiskLevel, SecurityData, SecurityLevel, TransactionData,
};
use vstd::bytes::{
    lemma_auto_spec_u64_to_from_le_bytes, spec_u64_to_le_bytes, u64_from_le_bytes,
    u64_to_le_bytes,
};
use vstd::prelude::*;
use vstd::slice::{slice_subrange, slice_to_vec};
use vstd::utf8::{encode_utf8, encode_utf8_valid_utf8, valid_utf8};

verus! {

/// Type tag of an encoded agent record.
pub const AGENT_TAG: u64 = 1;

/// Type tag of an encoded contract analysis record.
pub const ANALYSIS_TAG: u64 = 2;

/// Type tag of an encoded transaction optimization record.
pub const OPTIMIZATION_TAG: u64 = 3;

/// Type tag of an encoded security monitor record.
pub const MONITOR_TAG: u64 = 4;

/// A `u64` as its 8 little-endian bytes.
pub open spec fn enc_u64(x: u64) -> Seq<u8> {
    spec_u64_to_le_bytes(x)
}

/// An `i64` as the 8 little-endian bytes of its two's-complement image.
pub open spec fn enc_i64(x: i64) -> Seq<u8> {
    enc_u64(x as u64)
}

/// A boolean as one byte, 1 for true and 0 for false.
pub open spec fn enc_bool(b: bool) -> Seq<u8> {
    seq![if b { 1u8 } else { 0u8 }]
}

/// A risk level as one byte.
pub open spec fn risk_byte(r: RiskLevel) -> u8 {
    match r {
        RiskLevel::Safe => 0,
        RiskLevel::Warning => 1,
        RiskLevel::Critical => 2,
    }
}

/// A security level as one byte.
pub open spec fn security_level_byte(l: SecurityLevel) -> u8 {
    match l {
        SecurityLevel::Low => 0,
        SecurityLevel::Medium => 1,
        SecurityLevel::High => 2,
        SecurityLevel::Maximum => 3,
    }
}

/// An analysis status as one byte.
pub open spec fn analysis_status_byte(s: AnalysisStatus) -> u8 {
    match s {
        AnalysisStatus::InProgress => 0,
        AnalysisStatus::Completed => 1,
        AnalysisStatus::Failed => 2,
    }
}

/// An optimization status as one byte.
pub open spec fn optimization_status_byte(s: OptimizationStatus) -> u8 {
    match s {
        OptimizationStatus::Processing => 0,
        OptimizationStatus::Optimized => 1,
        OptimizationStatus::Failed => 2,
    }
}

/// A byte block behind its length.
pub open spec fn enc_blob(b: Seq<u8>) -> Seq<u8> {
    enc_u64(b.len() as u64) + b
}

/// A character sequence as its length-prefixed UTF-8 image.
pub open spec fn enc_str(s: Seq<char>) -> Seq<u8> {
    enc_blob(encode_utf8(s))
}

/// One optimization parameter: length-prefixed key, then the value.
pub open spec fn enc_entry(e: (String, u64)) -> Seq<u8> {
    enc_str(e.0@) + enc_u64(e.1)
}

/// A parameter list, entry by entry in storage order.
pub open spec fn enc_entries(es: Seq<(String, u64)>) -> Seq<u8>
    decreases es.len(),
{
    if es.len() == 0 {
        Seq::empty()
    } else {
        enc_entries(es.drop_last()) + enc_entry(es.last())
    }
}

/// An agent configuration: threshold, parameter count, parameters, level.
pub open spec fn enc_config(c: AgentConfig) -> Seq<u8> {
    enc_u64(c.analysis_threshold) + enc_u64(c.optimization_params.entries@.len() as u64)
        + enc_entries(c.optimization_params.entries@) + seq![security_level_byte(
        c.security_level,
    )]
}

/// A full agent record.
pub open spec fn enc_agent(a: Agent) -> Seq<u8> {
    enc_u64(AGENT_TAG) + a.owner@ + enc_str(a.name@) + enc_config(a.config) + enc_bool(
        a.is_active,
    ) + enc_u64(a.performance_metrics.total_analyses) + enc_u64(
        a.performance_metrics.total_optimizations,
    ) + enc_u64(a.performance_metrics.threats_prevented)
}

/// A full contract analysis record; always 84 bytes.
pub open spec fn enc_analysis(a: ContractAnalysis) -> Seq<u8> {
    enc_u64(ANALYSIS_TAG) + a.contract@ + a.agent@ + enc_i64(a.timestamp) + seq![a.params.depth]
        + enc_bool(a.params.include_security) + enc_bool(a.params.optimize_gas) + seq![
        analysis_status_byte(a.status),
    ]
}

/// A full transaction optimization record.
pub open spec fn enc_optimization(o: TransactionOptimization) -> Seq<u8> {
    enc_u64(OPTIMIZATION_TAG) + enc_blob(o.transaction.instructions@) + enc_u64(
        o.transaction.gas_limit,
    ) + seq![o.transaction.priority] + o.agent@ + enc_i64(o.timestamp) + seq![
        optimization_status_byte(o.status),
    ]
}

/// A full security monitor record; always 65 bytes.
pub open spec fn enc_monitor(m: SecurityMonitor) -> Seq<u8> {
    enc_u64(MONITOR_TAG) + m.agent@ + enc_u64(m.data.threats_detected) + seq![risk_byte(
        m.data.risk_level,
    )] + enc_u64(m.data.vulnerability_count) + enc_i64(m.last_update)
}

/// Appends the 8 little-endian bytes of `x`.
fn push_u64(out: &mut Vec<u8>, x: u64)
    ensures
        final(out)@ == old(out)@ + enc_u64(x),
{
    proof {
        lemma_auto_spec_u64_to_from_le_bytes();
    }
    let mut b = u64_to_le_bytes(x);
    out.append(&mut b);
}

/// Appends the two's-complement image of `x`.
fn push_i64(out: &mut Vec<u8>, x: i64)
    ensures
        final(out)@ == old(out)@ + enc_i64(x),
{
    push_u64(out, x as u64);
}

/// Appends one byte for `b`.
fn push_bool(out: &mut Vec<u8>, b: bool)
    ensures
        final(out)@ == old(out)@ + enc_bool(b),
{
    out.push(if b { 1 } else { 0 });
    proof {
        assert(out@ =~= old(out)@ + enc_bool(b));
    }
}

/// Appends the 32 raw bytes of `p`.
fn push_pubkey(out: &mut Vec<u8>, p: &Pubkey)
    ensures
        final(out)@ == old(out)@ + p@,
{
    out.extend_from_slice(p.bytes.as_slice());
    proof {
        assert(out@ =~= old(out)@ + p@);
    }
}

/// Appends the length-prefixed bytes of `b`.
fn push_blob(out: &mut Vec<u8>, b: &Vec<u8>)
    ensures
        final(out)@ == old(out)@ + enc_blob(b@),
{
    push_u64(out, b.len() as u64);
    let mut rest = b.clone();
    out.append(&mut rest);
    proof {
        assert(out@ =~= old(out)@ + enc_blob(b@));
    }
}

/// Appends the length-prefixed UTF-8 bytes of `s`.
fn push_str(out: &mut Vec<u8>, s: &String)
    ensures
        final(out)@ == old(out)@ + enc_str(s@),
        encode_utf8(s@).len() <= u64::MAX,
{
    let b = s.as_str().as_bytes();
    push_u64(out, b.len() as u64);
    out.extend_from_slice(b);
    proof {
        assert(out@ =~= old(out)@ + enc_str(s@));
    }
}

/// Appending one more entry extends the entry-list encoding by that entry.
proof fn lemma_enc_entries_take(es: Seq<(String, u64)>, i: int)
    requires
        0 <= i < es.len(),
    ensures
        enc_entries(es.take(i + 1)) == enc_entries(es.take(i)) + enc_entry(es[i]),
{
    assert(es.take(i + 1).drop_last() =~= es.take(i));
    assert(es.take(i + 1).last() == es[i]);
}

/// Serializes an agent record.
pub fn encode_agent(a: &Agent) -> (r: Vec<u8>)
    ensures
        r@ == enc_agent(*a),
        agent_encodable(*a),
{
    let mut out: Vec<u8> = Vec::new();
    push_u64(&mut out, AGENT_TAG);
    push_pubkey(&mut out, &a.owner);
    push_str(&mut out, &a.name);
    push_u64(&mut out, a.config.analysis_threshold);
    let es: &Vec<(String, u64)> = &a.config.optimization_params.entries;
    push_u64(&mut out, es.len() as u64);
    let ghost base = out@;
    let n: usize = es.len();
    let mut i: usize = 0;
    while i < n
        invariant
            n == es@.len(),
            i <= n,
            es == &a.config.optimization_params.entries,
            out@ == base + enc_entries(es@.take(i as int)),
            forall|j: int| 0 <= j < i ==> encode_utf8((#[trigger] es@[j]).0@).len() <= u64::MAX,
        decreases n - i,
    {
        let e = &es[i];
        push_str(&mut out, &e.0);
        push_u64(&mut out, e.1);
        proof {
            lemma_enc_entries_take(es@, i as int);
            assert(out@ =~= base + enc_entries(es@.take(i + 1 as int)));
        }
        i += 1;
    }
    proof {
        assert(es@.take(n as int) =~= es@);
    }
    out.push(match a.config.security_level {
        SecurityLevel::Low => 0,
        SecurityLevel::Medium => 1,
        SecurityLevel::High => 2,
        SecurityLevel::Maximum => 3,
    });
    push_bool(&mut out, a.is_active);
    push_u64(&mut out, a.performance_metrics.total_analyses);
    push_u64(&mut out, a.performance_metrics.total_optimizations);
    push_u64(&mut out, a.performance_metrics.threats_prevented);
    proof {
        assert(out@ =~= enc_agent(*a));
    }
    out
}

/// Serializes a contract analysis record.
pub fn encode_analysis(a: &ContractAnalysis) -> (r: Vec<u8>)
    ensures
        r@ == enc_analysis(*a),
{
    let mut out: Vec<u8> = Vec::new();
    push_u64(&mut out, ANALYSIS_TAG);
    push_pubkey(&mut out, &a.contract);
    push_pubkey(&mut out, &a.agent);
    push_i64(&mut out, a.timestamp);
    out.push(a.params.depth);
    push_bool(&mut out, a.params.include_security);
    push_bool(&mut out, a.params.optimize_gas);
    out.push(match a.status {
        AnalysisStatus::InProgress => 0,
        AnalysisStatus::Completed => 1,
        AnalysisStatus::Failed => 2,
    });
    proof {
        assert(out@ =~= enc_analysis(*a));
    }
    out
}

/// Serializes a transaction optimization record.
pub fn encode_optimization(o: &TransactionOptimization) -> (r: Vec<u8>)
    ensures
        r@ == enc_optimization(*o),
{
    let mut out: Vec<u8> = Vec::new();
    push_u64(&mut out, OPTIMIZATION_TAG);
    push_blob(&mut out, &o.transaction.instructions);
    push_u64(&mut out, o.transaction.gas_limit);
    out.push(o.transaction.priority);
    push_pubkey(&mut out, &o.agent);
    push_i64(&mut out, o.timestamp);
    out.push(match o.status {
        OptimizationStatus::Processing => 0,
        OptimizationStatus::Optimized => 1,
        OptimizationStatus::Failed => 2,
    });
    proof {
        assert(out@ =~= enc_optimization(*o));
    }
    out
}

/// Serializes a security monitor record.
pub fn encode_monitor(m: &SecurityMonitor) -> (r: Vec<u8>)
    ensures
        r@ == enc_monitor(*m),
{
    let mut out: Vec<u8> = Vec::new();
    push_u64(&mut out, MONITOR_TAG);
    push_pubkey(&mut out, &m.agent);
    push_u64(&mut out, m.data.threats_detected);
    out.push(match m.data.risk_level {
        RiskLevel::Safe => 0,
        RiskLevel::Warning => 1,
        RiskLevel::Critical => 2,
    });
    push_u64(&mut out, m.data.vulnerability_count);
    push_i64(&mut out, m.last_update);
    proof {
        assert(out@ =~= enc_monitor(*m));
    }
    out
}

/// Splitting an entry list at the front.
proof fn lemma_enc_entries_first(es: Seq<(String, u64)>)
    requires
        es.len() > 0,
    ensures
        enc_entries(es) == enc_entry(es[0]) + enc_entries(es.drop_first()),
    decreases es.len(),
{
    if es.len() == 1 {
        assert(es.drop_last() =~= Seq::<(String, u64)>::empty());
        assert(es.drop_first() =~= Seq::<(String, u64)>::empty());
        assert(enc_entries(es) =~= enc_entry(es[0]) + enc_entries(es.drop_first()));
    } else {
        lemma_enc_entries_first(es.drop_last());
        assert(es.drop_last()[0] == es[0]);
        assert(es.drop_first().drop_last() =~= es.drop_last().drop_first());
        assert(es.drop_first().last() == es.last());
        assert(enc_entries(es) =~= enc_entry(es[0]) + enc_entries(es.drop_first()));
    }
}

/// Every entry takes at least 16 bytes, and contains each key's UTF-8 image.
proof fn lemma_enc_entries_len(es: Seq<(String, u64)>)
    ensures
        enc_entries(es).len() >= 16 * es.len(),
        forall|i: int|
            0 <= i < es.len() ==> enc_entries(es).len() >= encode_utf8(
                #[trigger] es[i].0@,
            ).len(),
    decreases es.len(),
{
    lemma_auto_spec_u64_to_from_le_bytes();
    if es.len() > 0 {
        lemma_enc_entries_len(es.drop_last());
        assert(forall|i: int| 0 <= i < es.len() - 1 ==> es.drop_last()[i] == es[i]);
        assert(enc_entry(es.last()).len() >= 16);
    }
}

/// No key's UTF-8 image overflows a length prefix.
pub open spec fn entries_sane(es: Seq<(String, u64)>) -> bool {
    forall|i: int| 0 <= i < es.len() ==> encode_utf8(#[trigger] es[i].0@).len() <= u64::MAX
}

/// Entry lists of one length encode prefix-deterministically: equal
/// concatenations force equal entries, entry encodings and remainders.
proof fn lemma_entries_prefix(
    e1: Seq<(String, u64)>,
    e2: Seq<(String, u64)>,
    r1: Seq<u8>,
    r2: Seq<u8>,
)
    requires
        e1.len() == e2.len(),
        entries_sane(e1),
        entries_sane(e2),
        enc_entries(e1) + r1 == enc_entries(e2) + r2,
    ensures
        enc_entries(e1) == enc_entries(e2),
        r1 == r2,
        forall|i: int| 0 <= i < e1.len() ==> (#[trigger] e1[i]).0@ == e2[i].0@ && e1[i].1
            == e2[i].1,
    decreases e1.len(),
{
    lemma_auto_spec_u64_to_from_le_bytes();
    if e1.len() == 0 {
        assert(enc_entries(e1) =~= enc_entries(e2));
        assert(r1 =~= r2);
    } else {
        lemma_enc_entries_first(e1);
        lemma_enc_entries_first(e2);
        let s = enc_entries(e1) + r1;
        let k1 = encode_utf8(e1[0].0@);
        let k2 = encode_utf8(e2[0].0@);
        let d1 = e1.drop_first();
        let d2 = e2.drop_first();
        let t1 = enc_entries(d1) + r1;
        let t2 = enc_entries(d2) + r2;
        assert(s =~= enc_u64(k1.len() as u64) + k1 + enc_u64(e1[0].1) + t1);
        assert(s =~= enc_u64(k2.len() as u64) + k2 + enc_u64(e2[0].1) + t2);
        assert(s.subrange(0, 8) =~= enc_u64(k1.len() as u64));
        assert(s.subrange(0, 8) =~= enc_u64(k2.len() as u64));
        assert(k1.len() == k2.len());
        let kl = k1.len() as int;
        assert(k1 =~= s.subrange(8, 8 + kl));
        assert(k2 =~= s.subrange(8, 8 + kl));
        vstd::utf8::encode_utf8_decode_utf8(e1[0].0@);
        vstd::utf8::encode_utf8_decode_utf8(e2[0].0@);
        assert(e1[0].0@ == e2[0].0@);
        assert(enc_u64(e1[0].1) =~= s.subrange(8 + kl, 16 + kl));
        assert(enc_u64(e2[0].1) =~= s.subrange(8 + kl, 16 + kl));
        assert(e1[0].1 == e2[0].1);
        assert(forall|i: int| 0 <= i < d1.len() ==> d1[i] == e1[i + 1]);
        assert(forall|i: int| 0 <= i < d2.len() ==> d2[i] == e2[i + 1]);
        assert(t1 =~= s.subrange(16 + kl, s.len() as int));
        assert(t2 =~= s.subrange(16 + kl, s.len() as int));
        lemma_entries_prefix(d1, d2, r1, r2);
        assert(enc_entries(e1) =~= enc_entries(e2));
        assert forall|i: int| 0 <= i < e1.len() implies (#[trigger] e1[i]).0@ == e2[i].0@
            && e1[i].1 == e2[i].1 by {
            if i > 0 {
                assert(d1[i - 1] == e1[i] && d2[i - 1] == e2[i]);
            }
        }
    }
}

/// The variable-length pieces of an agent record fit their length prefixes.
pub open spec fn agent_encodable(a: Agent) -> bool {
    &&& encode_utf8(a.name@).len() <= u64::MAX
    &&& a.config.optimization_params.entries@.len() <= u64::MAX
    &&& entries_sane(a.config.optimization_params.entries@)
}

/// Round trip for contract analyses: the encoding loses nothing, so two
/// records with the same encoding agree field for field.
pub proof fn lemma_analysis_encoding_injective(a: ContractAnalysis, b: ContractAnalysis)
    requires
        enc_analysis(a) == enc_analysis(b),
    ensures
        a@ == b@,
{
    lemma_auto_spec_u64_to_from_le_bytes();
    let s = enc_analysis(a);
    assert(a.contract@ =~= s.subrange(8, 40));
    assert(b.contract@ =~= s.subrange(8, 40));
    assert(a.agent@ =~= s.subrange(40, 72));
    assert(b.agent@ =~= s.subrange(40, 72));
    assert(enc_u64(a.timestamp as u64) =~= s.subrange(72, 80));
    assert(enc_u64(b.timestamp as u64) =~= s.subrange(72, 80));
    let x = a.timestamp;
    let y = b.timestamp;
    assert(x as u64 == y as u64 ==> x == y) by (bit_vector);
    assert(s[80] == a.params.depth && s[80] == b.params.depth);
    assert(s[81] == enc_bool(a.params.include_security)[0]);
    assert(s[81] == enc_bool(b.params.include_security)[0]);
    assert(s[82] == enc_bool(a.params.optimize_gas)[0]);
    assert(s[82] == enc_bool(b.params.optimize_gas)[0]);
    assert(s[83] == analysis_status_byte(a.status) && s[83] == analysis_status_byte(b.status));
}

/// Round trip for security monitors: the encoding loses nothing, so two
/// records with the same encoding agree field for field.
pub proof fn lemma_monitor_encoding_injective(a: SecurityMonitor, b: SecurityMonitor)
    requires
        enc_monitor(a) == enc_monitor(b),
    ensures
        a@ == b@,
{
    lemma_auto_spec_u64_to_from_le_bytes();
    let s = enc_monitor(a);
    assert(a.agent@ =~= s.subrange(8, 40));
    assert(b.agent@ =~= s.subrange(8, 40));
    assert(enc_u64(a.data.threats_detected) =~= s.subrange(40, 48));
    assert(enc_u64(b.data.threats_detected) =~= s.subrange(40, 48));
    assert(s[48] == risk_byte(a.data.risk_level) && s[48] == risk_byte(b.data.risk_level));
    assert(enc_u64(a.data.vulnerability_count) =~= s.subrange(49, 57));
    assert(enc_u64(b.data.vulnerability_count) =~= s.subrange(49, 57));
    assert(enc_u64(a.last_update as u64) =~= s.subrange(57, 65));
    assert(enc_u64(b.last_update as u64) =~= s.subrange(57, 65));
    let x = a.last_update;
    let y = b.last_update;
    assert(x as u64 == y as u64 ==> x == y) by (bit_vector);
}

/// Round trip for transaction optimizations: the encoding loses nothing, so
/// two records with the same encoding agree field for field.
pub proof fn lemma_optimization_encoding_injective(
    a: TransactionOptimization,
    b: TransactionOptimization,
)
    requires
        enc_optimization(a) == enc_optimization(b),
    ensures
        a@ == b@,
{
    lemma_auto_spec_u64_to_from_le_bytes();
    let s = enc_optimization(a);
    let n = a.transaction.instructions@.len() as int;
    assert(s.len() == 66 + n);
    assert(b.transaction.instructions@.len() == n);
    assert(a.transaction.instructions@ =~= s.subrange(16, 16 + n));
    assert(b.transaction.instructions@ =~= s.subrange(16, 16 + n));
    assert(enc_u64(a.transaction.gas_limit) =~= s.subrange(16 + n, 24 + n));
    assert(enc_u64(b.transaction.gas_limit) =~= s.subrange(16 + n, 24 + n));
    assert(s[24 + n] == a.transaction.priority && s[24 + n] == b.transaction.priority);
    assert(a.agent@ =~= s.subrange(25 + n, 57 + n));
    assert(b.agent@ =~= s.subrange(25 + n, 57 + n));
    assert(enc_u64(a.timestamp as u64) =~= s.subrange(57 + n, 65 + n));
    assert(enc_u64(b.timestamp as u64) =~= s.subrange(57 + n, 65 + n));
    let x = a.timestamp;
    let y = b.timestamp;
    assert(x as u64 == y as u64 ==> x == y) by (bit_vector);
    assert(s[65 + n] == optimization_status_byte(a.status));
    assert(s[65 + n] == optimization_status_byte(b.status));
}

/// Round trip for agents: on records whose variable-length pieces fit their
/// length prefixes — every record the executable encoder accepts — the
/// encoding loses nothing, so two records with the same encoding agree
/// field for field.
pub proof fn lemma_agent_encoding_injective(a: Agent, b: Agent)
    requires
        agent_encodable(a),
        agent_encodable(b),
        enc_agent(a) == enc_agent(b),
    ensures
        a@ == b@,
{
    lemma_auto_spec_u64_to_from_le_bytes();
    let s = enc_agent(a);
    lemma_agent_fields(s, a);
    lemma_agent_fields(s, b);
    let nla = encode_utf8(a.name@).len() as int;
    let nlb = encode_utf8(b.name@).len() as int;
    assert(enc_u64(nla as u64) == s.subrange(40, 48));
    assert(enc_u64(nlb as u64) == s.subrange(40, 48));
    assert(nla == nlb);
    let nl = nla;
    assert(a.owner@ == s.subrange(8, 40) && b.owner@ == s.subrange(8, 40));
    assert(encode_utf8(a.name@) == s.subrange(48, 48 + nl));
    assert(encode_utf8(b.name@) == s.subrange(48, 48 + nl));
    vstd::utf8::encode_utf8_decode_utf8(a.name@);
    vstd::utf8::encode_utf8_decode_utf8(b.name@);
    assert(a.name@ == b.name@);
    assert(enc_u64(a.config.analysis_threshold) == s.subrange(48 + nl, 56 + nl));
    assert(enc_u64(b.config.analysis_threshold) == s.subrange(48 + nl, 56 + nl));
    let ea = a.config.optimization_params.entries@;
    let eb = b.config.optimization_params.entries@;
    assert(enc_u64(ea.len() as u64) == s.subrange(56 + nl, 64 + nl));
    assert(enc_u64(eb.len() as u64) == s.subrange(56 + nl, 64 + nl));
    assert(ea.len() == eb.len());
    let ta = s.subrange(64 + nl + enc_entries(ea).len() as int, s.len() as int);
    let tb = s.subrange(64 + nl + enc_entries(eb).len() as int, s.len() as int);
    assert(enc_entries(ea) + ta == enc_entries(eb) + tb);
    lemma_entries_prefix(ea, eb, ta, tb);
    kv::lemma_map_of_congruent(ea, eb);
    assert(a.config.optimization_params@ == b.config.optimization_params@);
    let el = enc_entries(ea).len() as int;
    assert(s[64 + nl + el] == security_level_byte(a.config.security_level));
    assert(s[64 + nl + el] == security_level_byte(b.config.security_level));
    assert(a.config.security_level == b.config.security_level);
    assert(s[65 + nl + el] == (if a.is_active {
        1u8
    } else {
        0u8
    }));
    assert(s[65 + nl + el] == (if b.is_active {
        1u8
    } else {
        0u8
    }));
    assert(a.is_active == b.is_active);
    assert(s.subrange(66 + nl + el, 74 + nl + el) == enc_u64(a.performance_metrics.total_analyses));
    assert(s.subrange(66 + nl + el, 74 + nl + el) == enc_u64(b.performance_metrics.total_analyses));
    assert(s.subrange(74 + nl + el, 82 + nl + el) == enc_u64(
        a.performance_metrics.total_optimizations,
    ));
    assert(s.subrange(74 + nl + el, 82 + nl + el) == enc_u64(
        b.performance_metrics.total_optimizations,
    ));
    assert(s.subrange(82 + nl + el, 90 + nl + el) == enc_u64(
        a.performance_metrics.threats_prevented,
    ));
    assert(s.subrange(82 + nl + el, 90 + nl + el) == enc_u64(
        b.performance_metrics.threats_prevented,
    ));
    assert(a.performance_metrics == b.performance_metrics);
    assert(a@ == b@);
}

/// Relies on `String::from_utf8`: it succeeds exactly on valid UTF-8 input
/// and returns the string those bytes spell.
#[verifier::external_body]
fn bytes_to_string(v: Vec<u8>) -> (r: Option<String>)
    ensures
        match r {
            Some(s) => valid_utf8(v@) && encode_utf8(s@) == v@,
            None => !valid_utf8(v@),
        },
{
    match String::from_utf8(v) {
        Ok(s) => Some(s),
        Err(_) => None,
    }
}

/// The `u64` whose little-endian image sits at `pos`.
fn read_u64_at(bytes: &Vec<u8>, pos: usize) -> (r: u64)
    requires
        pos + 8 <= bytes@.len(),
    ensures
        enc_u64(r) == bytes@.subrange(pos as int, pos as int + 8),
{
    proof {
        lemma_auto_spec_u64_to_from_le_bytes();
        vstd::std_specs::vec::axiom_spec_len(bytes);
    }
    u64_from_le_bytes(slice_subrange(bytes.as_slice(), pos, pos + 8))
}

/// The `i64` whose two's-complement image sits at `pos`.
fn read_i64_at(bytes: &Vec<u8>, pos: usize) -> (r: i64)
    requires
        pos + 8 <= bytes@.len(),
    ensures
        enc_i64(r) == bytes@.subrange(pos as int, pos as int + 8),
{
    let x = read_u64_at(bytes, pos);
    let v = x as i64;
    proof {
        assert(x as i64 as u64 == x) by (bit_vector);
    }
    v
}

/// The address whose 32 raw bytes sit at `pos`.
fn read_pubkey_at(bytes: &Vec<u8>, pos: usize) -> (r: Pubkey)
    requires
        pos + 32 <= bytes@.len(),
    ensures
        r@ == bytes@.subrange(pos as int, pos as int + 32),
{
    proof {
        vstd::std_specs::vec::axiom_spec_len(bytes);
    }
    let mut arr: [u8; 32] = [0u8; 32];
    let mut i: usize = 0;
    while i < 32
        invariant
            pos + 32 <= bytes@.len(),
            i <= 32,
            forall|j: int| 0 <= j < i ==> arr@[j] == bytes@[pos + j],
        decreases 32 - i,
    {
        proof {
            vstd::std_specs::vec::axiom_spec_len(bytes);
        }
        arr[i] = bytes[pos + i];
        i += 1;
    }
    proof {
        assert(arr@ =~= bytes@.subrange(pos as int, pos as int + 32));
    }
    Pubkey { bytes: arr }
}

/// Whether the entry keys are pairwise distinct.
fn entries_unique(es: &Vec<(String, u64)>) -> (r: bool)
    ensures
        r == kv::unique_keys(es@),
{
    let n: usize = es.len();
    let mut i: usize = 0;
    while i < n
        invariant
            n == es@.len(),
            i <= n,
            forall|x: int, y: int| 0 <= x < y < i ==> es@[x].0@ != es@[y].0@,
        decreases n - i,
    {
        let mut j: usize = 0;
        while j < i
            invariant
                n == es@.len(),
                i < n,
                j <= i,
                forall|x: int, y: int| 0 <= x < y < i ==> es@[x].0@ != es@[y].0@,
                forall|x: int| 0 <= x < j ==> es@[x].0@ != es@[i as int].0@,
            decreases i - j,
        {
            if es[j].0 == es[i].0 {
                proof {
                    assert(es@[j as int].0@ == es@[i as int].0@);
                }
                return false;
            }
            j += 1;
        }
        i += 1;
    }
    true
}

/// Reads `n` parameter entries starting at `pos`.  On success it returns
/// them with the position just past them; it fails exactly when no list of
/// `n` entries, whatever follows it, is encoded there.
#[verifier::rlimit(100)]
fn decode_entries(bytes: &Vec<u8>, pos: usize, n: usize) -> (r: Option<(Vec<(String, u64)>, usize)>)
    requires
        pos <= bytes@.len(),
    ensures
        match r {
            Some(p) => {
                &&& p.0@.len() == n
                &&& pos <= p.1 <= bytes@.len()
                &&& bytes@.subrange(pos as int, p.1 as int) == enc_entries(p.0@)
            },
            None => forall|es: Seq<(String, u64)>, tail: Seq<u8>|
                es.len() == n ==> bytes@.subrange(pos as int, bytes@.len() as int) != #[trigger] (
                enc_entries(es) + tail),
        },
    decreases n,
{
    proof {
        lemma_auto_spec_u64_to_from_le_bytes();
        vstd::std_specs::vec::axiom_spec_len(bytes);
    }
    let len: usize = bytes.len();
    let ghost sub = bytes@.subrange(pos as int, bytes@.len() as int);
    if n == 0 {
        let v: Vec<(String, u64)> = Vec::new();
        proof {
            assert(bytes@.subrange(pos as int, pos as int) =~= enc_entries(v@));
        }
        return Some((v, pos));
    }
    if len - pos < 16 {
        proof {
            assert forall|es: Seq<(String, u64)>, tail: Seq<u8>|
                es.len() == n implies sub != (enc_entries(es) + tail) by {
                if sub == enc_entries(es) + tail {
                    lemma_enc_entries_first(es);
                    assert(sub.len() >= 16 + encode_utf8(es[0].0@).len());
                    assert(false);
                }
            }
        }
        return None;
    }
    let kl = read_u64_at(bytes, pos);
    if kl > (len - pos - 16) as u64 {
        proof {
            assert forall|es: Seq<(String, u64)>, tail: Seq<u8>|
                es.len() == n implies sub != (enc_entries(es) + tail) by {
                if sub == enc_entries(es) + tail {
                    lemma_enc_entries_first(es);
                    let k = encode_utf8(es[0].0@);
                    let t = enc_entries(es.drop_first()) + tail;
                    assert(sub =~= enc_u64(k.len() as u64) + k + enc_u64(es[0].1) + t);
                    assert(enc_u64(kl) == bytes@.subrange(pos as int, pos as int + 8));
                    assert(enc_u64(kl) =~= sub.subrange(0, 8));
                    assert(enc_u64(k.len() as u64) =~= sub.subrange(0, 8));
                    assert(k.len() <= sub.len() - 16);
                    assert(false);
                }
            }
        }
        return None;
    }
    let klen = kl as usize;
    let kb = slice_to_vec(slice_subrange(bytes.as_slice(), pos + 8, pos + 8 + klen));
    let ghost kbv = kb@;
    let key = match bytes_to_string(kb) {
        None => {
            proof {
                assert forall|es: Seq<(String, u64)>, tail: Seq<u8>|
                    es.len() == n implies sub != (enc_entries(es) + tail) by {
                    if sub == enc_entries(es) + tail {
                        lemma_enc_entries_first(es);
                        let k = encode_utf8(es[0].0@);
                        let t = enc_entries(es.drop_first()) + tail;
                        assert(sub =~= enc_u64(k.len() as u64) + k + enc_u64(es[0].1) + t);
                        assert(enc_u64(kl) =~= sub.subrange(0, 8));
                        assert(enc_u64(k.len() as u64) =~= sub.subrange(0, 8));
                        assert(k.len() == klen);
                        assert(k =~= sub.subrange(8, 8 + klen as int));
                        assert(kbv =~= sub.subrange(8, 8 + klen as int));
                        encode_utf8_valid_utf8(es[0].0@);
                        assert(false);
                    }
                }
            }
            return None;
        },
        Some(key) => key,
    };
    let val = read_u64_at(bytes, pos + 8 + klen);
    let p2 = pos + 16 + klen;
    match decode_entries(bytes, p2, n - 1) {
        None => {
            proof {
                assert forall|es: Seq<(String, u64)>, tail: Seq<u8>|
                    es.len() == n implies sub != (enc_entries(es) + tail) by {
                    if sub == enc_entries(es) + tail {
                        lemma_enc_entries_first(es);
                        let k = encode_utf8(es[0].0@);
                        let t = enc_entries(es.drop_first()) + tail;
                        assert(sub =~= enc_u64(k.len() as u64) + k + enc_u64(es[0].1) + t);
                        assert(enc_u64(kl) =~= sub.subrange(0, 8));
                        assert(enc_u64(k.len() as u64) =~= sub.subrange(0, 8));
                        assert(k.len() == klen);
                        assert(bytes@.subrange(p2 as int, bytes@.len() as int) =~= sub.subrange(
                            16 + klen as int,
                            sub.len() as int,
                        ));
                        assert(sub.subrange(16 + klen as int, sub.len() as int) =~= t);
                        assert(false);
                    }
                }
            }
            return None;
        },
        Some(p) => {
            let (mut v, end) = p;
            let ghost restv = v@;
            v.insert(0, (key, val));
            proof {
                assert(v@.drop_first() =~= restv);
                assert(v@[0].0@ == key@ && v@[0].1 == val);
                lemma_enc_entries_first(v@);
                assert(encode_utf8(key@) == kbv);
                assert(kbv == bytes@.subrange(pos as int + 8, pos as int + 8 + klen as int));
                assert(enc_entry(v@[0]) =~= enc_u64(kl) + kbv + enc_u64(val));
                assert(bytes@.subrange(pos as int, end as int) =~= bytes@.subrange(
                    pos as int,
                    pos as int + 8,
                ) + bytes@.subrange(pos as int + 8, pos as int + 8 + klen as int)
                    + bytes@.subrange(pos as int + 8 + klen as int, p2 as int) + bytes@.subrange(
                    p2 as int,
                    end as int,
                ));
                assert(bytes@.subrange(pos as int, end as int) =~= enc_entries(v@));
            }
            Some((v, end))
        },
    }
}

/// Where each field of an encoded agent record sits.
proof fn lemma_agent_shape(a: Agent)
    ensures
        ({
            let nl = encode_utf8(a.name@).len() as int;
            let ees = enc_entries(a.config.optimization_params.entries@);
            let el = ees.len() as int;
            let e = enc_agent(a);
            &&& e.len() == 90 + nl + el
            &&& e.subrange(0, 8) == enc_u64(AGENT_TAG)
            &&& e.subrange(8, 40) == a.owner@
            &&& e.subrange(40, 48) == enc_u64(encode_utf8(a.name@).len() as u64)
            &&& e.subrange(48, 48 + nl) == encode_utf8(a.name@)
            &&& e.subrange(48 + nl, 56 + nl) == enc_u64(a.config.analysis_threshold)
            &&& e.subrange(56 + nl, 64 + nl) == enc_u64(
                a.config.optimization_params.entries@.len() as u64,
            )
            &&& e.subrange(64 + nl, 64 + nl + el) == ees
            &&& e[64 + nl + el] == security_level_byte(a.config.security_level)
            &&& e[65 + nl + el] == (if a.is_active {
                1u8
            } else {
                0u8
            })
            &&& e.subrange(66 + nl + el, 74 + nl + el) == enc_u64(
                a.performance_metrics.total_analyses,
            )
            &&& e.subrange(74 + nl + el, 82 + nl + el) == enc_u64(
                a.performance_metrics.total_optimizations,
            )
            &&& e.subrange(82 + nl + el, 90 + nl + el) == enc_u64(
                a.performance_metrics.threats_prevented,
            )
        }),
{
    lemma_auto_spec_u64_to_from_le_bytes();
    let nl = encode_utf8(a.name@).len() as int;
    let ees = enc_entries(a.config.optimization_params.entries@);
    let el = ees.len() as int;
    let e = enc_agent(a);
    assert(e.subrange(0, 8) =~= enc_u64(AGENT_TAG));
    assert(e.subrange(8, 40) =~= a.owner@);
    assert(e.subrange(40, 48) =~= enc_u64(encode_utf8(a.name@).len() as u64));
    assert(e.subrange(48, 48 + nl) =~= encode_utf8(a.name@));
    assert(e.subrange(48 + nl, 56 + nl) =~= enc_u64(a.config.analysis_threshold));
    assert(e.subrange(56 + nl, 64 + nl) =~= enc_u64(
        a.config.optimization_params.entries@.len() as u64,
    ));
    assert(e.subrange(64 + nl, 64 + nl + el) =~= ees);
    assert(e.subrange(66 + nl + el, 74 + nl + el) =~= enc_u64(
        a.performance_metrics.total_analyses,
    ));
    assert(e.subrange(74 + nl + el, 82 + nl + el) =~= enc_u64(
        a.performance_metrics.total_optimizations,
    ));
    assert(e.subrange(82 + nl + el, 90 + nl + el) =~= enc_u64(
        a.performance_metrics.threats_prevented,
    ));
}

/// What a byte sequence that encodes an agent record looks like, stated of
/// the byte sequence itself.
proof fn lemma_agent_fields(bytes: Seq<u8>, orig: Agent)
    requires
        bytes == enc_agent(orig),
    ensures
        ({
            let nl = encode_utf8(orig.name@).len() as int;
            let es = orig.config.optimization_params.entries@;
            let el = enc_entries(es).len() as int;
            &&& bytes.len() == 90 + nl + el
            &&& 16 * es.len() <= el
            &&& es.len() <= el
            &&& bytes.subrange(0, 8) == enc_u64(AGENT_TAG)
            &&& bytes.subrange(8, 40) == orig.owner@
            &&& bytes.subrange(40, 48) == enc_u64(encode_utf8(orig.name@).len() as u64)
            &&& bytes.subrange(48, 48 + nl) == encode_utf8(orig.name@)
            &&& bytes.subrange(48 + nl, 56 + nl) == enc_u64(orig.config.analysis_threshold)
            &&& bytes.subrange(56 + nl, 64 + nl) == enc_u64(es.len() as u64)
            &&& bytes.subrange(64 + nl, bytes.len() as int) == enc_entries(es) + bytes.subrange(
                64 + nl + el,
                bytes.len() as int,
            )
            &&& bytes[64 + nl + el] == security_level_byte(orig.config.security_level)
            &&& bytes[65 + nl + el] == (if orig.is_active {
                1u8
            } else {
                0u8
            })
        }),
{
    lemma_agent_shape(orig);
    let nl = encode_utf8(orig.name@).len() as int;
    let es = orig.config.optimization_params.entries@;
    let el = enc_entries(es).len() as int;
    lemma_enc_entries_len(es);
    if es.len() > 0 {
        assert(enc_entries(es).len() >= 16 * es.len());
    }
    assert(bytes.subrange(64 + nl, bytes.len() as int) =~= enc_entries(es) + bytes.subrange(
        64 + nl + el,
        bytes.len() as int,
    ));
}

/// Deserializes an agent record: succeeds exactly on the byte sequences
/// `enc_agent` produces from records whose parameter map has unique keys,
/// returning the record encoded there.
#[verifier::rlimit(100)]
pub fn decode_agent(bytes: &Vec<u8>) -> (r: Option<Agent>)
    ensures
        match r {
            Some(a) => bytes@ == enc_agent(a) && a.config.wf(),
            None => forall|orig: Agent| orig.config.wf() ==> bytes@ != enc_agent(orig),
        },
{
    proof {
        lemma_auto_spec_u64_to_from_le_bytes();
        vstd::std_specs::vec::axiom_spec_len(bytes);
    }
    let len: usize = bytes.len();
    if len < 90 {
        proof {
            assert forall|orig: Agent| orig.config.wf() implies bytes@ != enc_agent(orig) by {
                if bytes@ == enc_agent(orig) {
                    lemma_agent_fields(bytes@, orig);
                    assert(false);
                }
            }
        }
        return None;
    }
    let tag = read_u64_at(bytes, 0);
    let owner = read_pubkey_at(bytes, 8);
    let nl_u64 = read_u64_at(bytes, 40);
    if tag != AGENT_TAG || nl_u64 > (len - 90) as u64 {
        proof {
            assert forall|orig: Agent| orig.config.wf() implies bytes@ != enc_agent(orig) by {
                if bytes@ == enc_agent(orig) {
                    lemma_agent_fields(bytes@, orig);
                    assert(enc_u64(tag) == bytes@.subrange(0, 8));
                    assert(enc_u64(nl_u64) == bytes@.subrange(40, 48));
                    assert(false);
                }
            }
        }
        return None;
    }
    let nl = nl_u64 as usize;
    let nb = slice_to_vec(slice_subrange(bytes.as_slice(), 48, 48 + nl));
    let ghost nbv = nb@;
    let name = match bytes_to_string(nb) {
        None => {
            proof {
                assert forall|orig: Agent| orig.config.wf() implies bytes@ != enc_agent(orig) by {
                    if bytes@ == enc_agent(orig) {
                        lemma_agent_fields(bytes@, orig);
                        assert(enc_u64(nl_u64) == bytes@.subrange(40, 48));
                        assert(encode_utf8(orig.name@).len() == nl);
                        assert(nbv =~= encode_utf8(orig.name@));
                        encode_utf8_valid_utf8(orig.name@);
                        assert(false);
                    }
                }
            }
            return None;
        },
        Some(s) => s,
    };
    let thr = read_u64_at(bytes, 48 + nl);
    let cnt_u64 = read_u64_at(bytes, 56 + nl);
    if cnt_u64 > ((len - 90 - nl) / 16) as u64 {
        proof {
            assert forall|orig: Agent| orig.config.wf() implies bytes@ != enc_agent(orig) by {
                if bytes@ == enc_agent(orig) {
                    lemma_agent_fields(bytes@, orig);
                    let es = orig.config.optimization_params.entries@;
                    lemma_enc_entries_len(es);
                    assert(enc_u64(nl_u64) == bytes@.subrange(40, 48));
                    assert(encode_utf8(orig.name@).len() == nl);
                    assert(enc_u64(cnt_u64) == bytes@.subrange(56 + nl as int, 64 + nl as int));
                    assert(bytes@.subrange(56 + nl as int, 64 + nl as int) == enc_u64(
                        es.len() as u64,
                    ));
                    assert(es.len() <= bytes@.len());
                    assert(cnt_u64 == es.len());
                    assert(16 * es.len() <= len - 90 - nl);
                    assert(es.len() <= (len - 90 - nl) / 16) by (nonlinear_arith)
                        requires
                            16 * es.len() <= len - 90 - nl,
                    ;
                    assert(false);
                }
            }
        }
        return None;
    }
    let n = cnt_u64 as usize;
    let parsed = decode_entries(bytes, 64 + nl, n);
    let ghost tail26 = bytes@.subrange(bytes@.len() - 26, bytes@.len() as int);
    let (v, end) = match parsed {
        None => {
            proof {
                assert forall|orig: Agent| orig.config.wf() implies bytes@ != enc_agent(orig) by {
                    if bytes@ == enc_agent(orig) {
                        lemma_agent_fields(bytes@, orig);
                        let es = orig.config.optimization_params.entries@;
                        let e = enc_agent(orig);
                        assert(enc_u64(nl_u64) == bytes@.subrange(40, 48));
                        assert(encode_utf8(orig.name@).len() == nl);
                        assert(enc_u64(cnt_u64) == bytes@.subrange(56 + nl as int, 64 + nl as int));
                        assert(bytes@.subrange(56 + nl as int, 64 + nl as int) == enc_u64(
                            es.len() as u64,
                        ));
                        assert(es.len() <= bytes@.len());
                        assert(es.len() == n);
                        let tl = e.subrange(64 + nl + enc_entries(es).len() as int, e.len() as int);
                        assert(bytes@.subrange(64 + nl as int, bytes@.len() as int)
                            =~= enc_entries(es) + tl);
                        assert(false);
                    }
                }
            }
            return None;
        },
        Some(p) => p,
    };
    if len - end != 26 {
        proof {
            assert forall|orig: Agent| orig.config.wf() implies bytes@ != enc_agent(orig) by {
                if bytes@ == enc_agent(orig) {
                    lemma_agent_fields(bytes@, orig);
                    let es = orig.config.optimization_params.entries@;
                    let e = enc_agent(orig);
                    lemma_enc_entries_len(es);
                    lemma_enc_entries_len(v@);
                    assert(enc_u64(nl_u64) == bytes@.subrange(40, 48));
                    assert(encode_utf8(orig.name@).len() == nl);
                    assert(enc_u64(cnt_u64) == bytes@.subrange(56 + nl as int, 64 + nl as int));
                    assert(bytes@.subrange(56 + nl as int, 64 + nl as int) == enc_u64(
                        es.len() as u64,
                    ));
                    assert(es.len() <= bytes@.len());
                    assert(es.len() == n);
                    let tl = e.subrange(64 + nl + enc_entries(es).len() as int, e.len() as int);
                    assert(bytes@.subrange(64 + nl as int, bytes@.len() as int) =~= enc_entries(es)
                        + tl);
                    assert(bytes@.subrange(64 + nl as int, bytes@.len() as int) =~= enc_entries(v@)
                        + bytes@.subrange(end as int, bytes@.len() as int));
                    lemma_entries_prefix(
                        v@,
                        es,
                        bytes@.subrange(end as int, bytes@.len() as int),
                        tl,
                    );
                    assert(false);
                }
            }
        }
        return None;
    }
    let lb = bytes[end];
    let ab = bytes[end + 1];
    let unique = entries_unique(&v);
    if lb > 3 || ab > 1 || !unique {
        proof {
            assert forall|orig: Agent| orig.config.wf() implies bytes@ != enc_agent(orig) by {
                if bytes@ == enc_agent(orig) {
                    lemma_agent_fields(bytes@, orig);
                    let es = orig.config.optimization_params.entries@;
                    let e = enc_agent(orig);
                    lemma_enc_entries_len(es);
                    lemma_enc_entries_len(v@);
                    assert(enc_u64(nl_u64) == bytes@.subrange(40, 48));
                    assert(encode_utf8(orig.name@).len() == nl);
                    assert(enc_u64(cnt_u64) == bytes@.subrange(56 + nl as int, 64 + nl as int));
                    assert(bytes@.subrange(56 + nl as int, 64 + nl as int) == enc_u64(
                        es.len() as u64,
                    ));
                    assert(es.len() <= bytes@.len());
                    assert(es.len() == n);
                    let tl = e.subrange(64 + nl + enc_entries(es).len() as int, e.len() as int);
                    assert(bytes@.subrange(64 + nl as int, bytes@.len() as int) =~= enc_entries(es)
                        + tl);
                    assert(bytes@.subrange(64 + nl as int, bytes@.len() as int) =~= enc_entries(v@)
                        + bytes@.subrange(end as int, bytes@.len() as int));
                    lemma_entries_prefix(
                        v@,
                        es,
                        bytes@.subrange(end as int, bytes@.len() as int),
                        tl,
                    );
                    assert(end == 64 + nl + enc_entries(es).len());
                    assert(bytes@[end as int] == security_level_byte(orig.config.security_level));
                    assert(bytes@[end as int + 1] == (if orig.is_active {
                        1u8
                    } else {
                        0u8
                    }));
                    assert forall|x: int, y: int| 0 <= x < y < v@.len() implies v@[x].0@
                        != v@[y].0@ by {
                        assert(v@[x].0@ == es[x].0@ && v@[y].0@ == es[y].0@);
                    }
                    assert(kv::unique_keys(v@));
                    assert(false);
                }
            }
        }
        return None;
    }
    let security_level = if lb == 0 {
        SecurityLevel::Low
    } else if lb == 1 {
        SecurityLevel::Medium
    } else if lb == 2 {
        SecurityLevel::High
    } else {
        SecurityLevel::Maximum
    };
    let total_analyses = read_u64_at(bytes, end + 2);
    let total_optimizations = read_u64_at(bytes, end + 10);
    let threats_prevented = read_u64_at(bytes, end + 18);
    let a = Agent {
        owner,
        name,
        config: AgentConfig {
            analysis_threshold: thr,
            optimization_params: ParamMap { entries: v },
            security_level,
        },
        is_active: ab == 1,
        performance_metrics: PerformanceMetrics {
            total_analyses,
            total_optimizations,
            threats_prevented,
        },
    };
    proof {
        assert(encode_utf8(a.name@) == nbv);
        assert(nbv.len() == nl);
        assert(security_level_byte(a.config.security_level) == lb);
        assert((if a.is_active {
            1u8
        } else {
            0u8
        }) == ab);
        lemma_agent_assemble(bytes@, a, nl as int, end as int);
    }
    Some(a)
}

/// Rebuilds the encoding equation from the parsed pieces of an agent record.
#[verifier::spinoff_prover]
#[verifier::rlimit(100)]
proof fn lemma_agent_assemble(bytes: Seq<u8>, a: Agent, nl: int, end: int)
    requires
        0 <= nl <= u64::MAX,
        90 + nl <= bytes.len(),
        64 + nl <= end,
        end == bytes.len() - 26,
        bytes.subrange(0, 8) == enc_u64(AGENT_TAG),
        bytes.subrange(8, 40) == a.owner@,
        bytes.subrange(40, 48) == enc_u64(nl as u64),
        encode_utf8(a.name@) == bytes.subrange(48, 48 + nl),
        bytes.subrange(48 + nl, 56 + nl) == enc_u64(a.config.analysis_threshold),
        bytes.subrange(56 + nl, 64 + nl) == enc_u64(
            a.config.optimization_params.entries@.len() as u64,
        ),
        bytes.subrange(64 + nl, end) == enc_entries(a.config.optimization_params.entries@),
        bytes[end] == security_level_byte(a.config.security_level),
        bytes[end + 1] == (if a.is_active {
            1u8
        } else {
            0u8
        }),
        bytes.subrange(end + 2, end + 10) == enc_u64(a.performance_metrics.total_analyses),
        bytes.subrange(end + 10, end + 18) == enc_u64(a.performance_metrics.total_optimizations),
        bytes.subrange(end + 18, end + 26) == enc_u64(a.performance_metrics.threats_prevented),
    ensures
        bytes == enc_agent(a),
{
    lemma_auto_spec_u64_to_from_le_bytes();
    lemma_agent_shape(a);
    assert(encode_utf8(a.name@).len() == nl);
    assert(enc_entries(a.config.optimization_params.entries@).len() == end - 64 - nl);
    assert(bytes =~= bytes.subrange(0, 8) + bytes.subrange(8, 40) + bytes.subrange(40, 48)
        + bytes.subrange(48, 48 + nl) + bytes.subrange(48 + nl, 56 + nl) + bytes.subrange(
        56 + nl,
        64 + nl,
    ) + bytes.subrange(64 + nl, end) + seq![bytes[end]] + seq![bytes[end + 1]] + bytes.subrange(
        end + 2,
        end + 10,
    ) + bytes.subrange(end + 10, end + 18) + bytes.subrange(end + 18, end + 26));
    assert(bytes =~= enc_agent(a));
}

/// Deserializes a contract analysis record: succeeds exactly on the byte
/// sequences `enc_analysis` produces, returning the record encoded there.
pub fn decode_analysis(bytes: &Vec<u8>) -> (r: Option<ContractAnalysis>)
    ensures
        match r {
            Some(a) => bytes@ == enc_analysis(a),
            None => forall|orig: ContractAnalysis| bytes@ != enc_analysis(orig),
        },
{
    proof {
        lemma_auto_spec_u64_to_from_le_bytes();
    }
    if bytes.len() != 84 {
        proof {
            assert forall|orig: ContractAnalysis| bytes@ != enc_analysis(orig) by {
                assert(enc_analysis(orig).len() == 84);
            }
        }
        return None;
    }
    let tag = read_u64_at(bytes, 0);
    let contract = read_pubkey_at(bytes, 8);
    let agent = read_pubkey_at(bytes, 40);
    let timestamp = read_i64_at(bytes, 72);
    let depth = bytes[80];
    let b1 = bytes[81];
    let b2 = bytes[82];
    let sb = bytes[83];
    if tag != ANALYSIS_TAG || b1 > 1 || b2 > 1 || sb > 2 {
        proof {
            assert forall|orig: ContractAnalysis| bytes@ != enc_analysis(orig) by {
                if bytes@ == enc_analysis(orig) {
                    assert(enc_analysis(orig).subrange(0, 8) =~= enc_u64(ANALYSIS_TAG));
                    assert(enc_u64(tag) == bytes@.subrange(0, 8));
                    assert(bytes@[81] == enc_bool(orig.params.include_security)[0]);
                    assert(bytes@[82] == enc_bool(orig.params.optimize_gas)[0]);
                    assert(bytes@[83] == analysis_status_byte(orig.status));
                    assert(false);
                }
            }
        }
        return None;
    }
    let status = if sb == 0 {
        AnalysisStatus::InProgress
    } else if sb == 1 {
        AnalysisStatus::Completed
    } else {
        AnalysisStatus::Failed
    };
    let a = ContractAnalysis {
        contract,
        agent,
        timestamp,
        params: AnalysisParams { depth, include_security: b1 == 1, optimize_gas: b2 == 1 },
        status,
    };
    proof {
        assert(bytes@ =~= enc_analysis(a));
    }
    Some(a)
}

/// Deserializes a transaction optimization record: succeeds exactly on the
/// byte sequences `enc_optimization` produces, returning the record encoded
/// there.
pub fn decode_optimization(bytes: &Vec<u8>) -> (r: Option<TransactionOptimization>)
    ensures
        match r {
            Some(o) => bytes@ == enc_optimization(o),
            None => forall|orig: TransactionOptimization| bytes@ != enc_optimization(orig),
        },
{
    proof {
        lemma_auto_spec_u64_to_from_le_bytes();
        vstd::std_specs::vec::axiom_spec_len(bytes);
    }
    let len: usize = bytes.len();
    if len < 66 {
        proof {
            assert forall|orig: TransactionOptimization| bytes@ != enc_optimization(orig) by {
                assert(enc_optimization(orig).len() >= 66);
            }
        }
        return None;
    }
    let n: usize = len - 66;
    let tag = read_u64_at(bytes, 0);
    let ilen = read_u64_at(bytes, 8);
    if tag != OPTIMIZATION_TAG || ilen != n as u64 {
        proof {
            assert forall|orig: TransactionOptimization| bytes@ != enc_optimization(orig) by {
                if bytes@ == enc_optimization(orig) {
                    assert(enc_optimization(orig).subrange(0, 8) =~= enc_u64(OPTIMIZATION_TAG));
                    assert(enc_u64(tag) == bytes@.subrange(0, 8));
                    assert(orig.transaction.instructions@.len() == n);
                    assert(enc_optimization(orig).subrange(8, 16) =~= enc_u64(
                        orig.transaction.instructions@.len() as u64,
                    ));
                    assert(enc_u64(ilen) == bytes@.subrange(8, 16));
                    assert(false);
                }
            }
        }
        return None;
    }
    let instructions = slice_to_vec(slice_subrange(bytes.as_slice(), 16, 16 + n));
    let gas_limit = read_u64_at(bytes, 16 + n);
    let priority = bytes[24 + n];
    let agent = read_pubkey_at(bytes, 25 + n);
    let timestamp = read_i64_at(bytes, 57 + n);
    let sb = bytes[65 + n];
    if sb > 2 {
        proof {
            assert forall|orig: TransactionOptimization| bytes@ != enc_optimization(orig) by {
                if bytes@ == enc_optimization(orig) {
                    assert(orig.transaction.instructions@.len() == n);
                    assert(bytes@[65 + n] == optimization_status_byte(orig.status));
                    assert(false);
                }
            }
        }
        return None;
    }
    let status = if sb == 0 {
        OptimizationStatus::Processing
    } else if sb == 1 {
        OptimizationStatus::Optimized
    } else {
        OptimizationStatus::Failed
    };
    let o = TransactionOptimization {
        transaction: TransactionData { instructions, gas_limit, priority },
        agent,
        timestamp,
        status,
    };
    proof {
        assert(bytes@ =~= enc_optimization(o));
    }
    Some(o)
}

/// Deserializes a security monitor record: succeeds exactly on the byte
/// sequences `enc_monitor` produces, returning the record encoded there.
pub fn decode_monitor(bytes: &Vec<u8>) -> (r: Option<SecurityMonitor>)
    ensures
        match r {
            Some(m) => bytes@ == enc_monitor(m),
            None => forall|orig: SecurityMonitor| bytes@ != enc_monitor(orig),
        },
{
    proof {
        lemma_auto_spec_u64_to_from_le_bytes();
    }
    if bytes.len() != 65 {
        proof {
            assert forall|orig: SecurityMonitor| bytes@ != enc_monitor(orig) by {
                assert(enc_monitor(orig).len() == 65);
            }
        }
        return None;
    }
    let tag = read_u64_at(bytes, 0);
    let agent = read_pubkey_at(bytes, 8);
    let threats_detected = read_u64_at(bytes, 40);
    let rb = bytes[48];
    let vulnerability_count = read_u64_at(bytes, 49);
    let last_update = read_i64_at(bytes, 57);
    if tag != MONITOR_TAG || rb > 2 {
        proof {
            assert forall|orig: SecurityMonitor| bytes@ != enc_monitor(orig) by {
                if bytes@ == enc_monitor(orig) {
                    assert(enc_monitor(orig).subrange(0, 8) =~= enc_u64(MONITOR_TAG));
                    assert(enc_u64(tag) == bytes@.subrange(0, 8));
                    assert(bytes@[48] == risk_byte(orig.data.risk_level));
                    assert(false);
                }
            }
        }
        return None;
    }
    let risk_level = if rb == 0 {
        RiskLevel::Safe
    } else if rb == 1 {
        RiskLevel::Warning
    } else {
        RiskLevel::Critical
    };
    let m = SecurityMonitor {
        agent,
        data: SecurityData { threats_detected, risk_level, vulnerability_count },
        last_update,
    };
    proof {
        assert(bytes@ =~= enc_monitor(m));
    }
    Some(m)
}

} // verus!
