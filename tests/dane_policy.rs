use mailgate::dane::{
    classify, DnsCache, MxPattern, Policy, PolicyMode, TlsaAnswer, TlsaRecord,
};

fn rec(usage: u8, selector: u8, matching: u8, data: &[u8]) -> TlsaRecord {
    TlsaRecord { cert_usage: usage, selector, matching, cert_data: data.to_vec() }
}

#[test]
fn unsigned_answer_is_an_empty_policy_not_an_error() {
    let mut cache = DnsCache::new(1024, 100, 1024, 100);
    let r = cache.tlsa_resolved("mx.example.org", TlsaAnswer::Unsigned, 0);
    assert!(matches!(r, Ok(None)));
    assert!(cache.tlsa_cached("mx.example.org", 0).is_none());
}

#[test]
fn one_end_entity_record() {
    let mut cache = DnsCache::new(1024, 100, 1024, 100);
    let answer = TlsaAnswer::Records { records: vec![rec(3, 1, 1, &[1, 2, 3])], valid_until: 500 };
    let t = cache.tlsa_resolved("MX.Example.org", answer, 0).unwrap().unwrap();
    assert!(t.has_end_entities);
    assert!(!t.has_intermediates);
    assert_eq!(t.entries.len(), 1);
    assert!(t.entries[0].is_end_entity && t.entries[0].is_sha256 && t.entries[0].is_spki);
    assert_eq!(t.entries[0].data, vec![1, 2, 3]);
    let cached = cache.tlsa_cached("mx.example.org.", 10).unwrap();
    assert_eq!(cached.entries.len(), 1);
    assert!(cache.tlsa_cached("mx.example.org", 500).is_none());
}

#[test]
fn failures_are_errors_and_unusable_records_are_skipped() {
    let mut cache = DnsCache::new(1024, 100, 1024, 100);
    let r = cache.tlsa_resolved("a.example", TlsaAnswer::Failed("SERVFAIL".to_string()), 0);
    assert_eq!(r.unwrap_err().reason, "SERVFAIL");
    let t = classify(&vec![
        rec(1, 1, 1, &[9]),
        rec(2, 0, 2, &[8]),
        rec(3, 2, 1, &[7]),
        rec(3, 1, 0, &[6]),
    ]);
    assert_eq!(t.entries.len(), 1);
    assert!(!t.entries[0].is_end_entity && !t.entries[0].is_sha256 && !t.entries[0].is_spki);
    assert!(!t.has_end_entities);
    assert!(t.has_intermediates);
    let none = classify(&vec![rec(0, 1, 1, &[1])]);
    assert!(none.entries.is_empty() && !none.has_end_entities && !none.has_intermediates);
}

#[test]
fn policies_are_cached_for_their_max_age() {
    let mut cache = DnsCache::new(1024, 100, 1024, 100);
    let policy = Policy {
        id: "20240101".to_string(),
        mode: PolicyMode::Enforce,
        mx: vec![MxPattern::Equals("mx.example.org".to_string()), MxPattern::StartsWith("example.net".to_string())],
        max_age: 86400,
    };
    let back = cache.policy_resolved("example.org".to_string(), policy, 1000);
    assert_eq!(back.id, "20240101");
    let domain = "example.org".to_string();
    let p = cache.policy_cached(&domain, 87399).unwrap();
    assert_eq!(p.mode, PolicyMode::Enforce);
    assert_eq!(p.mx.len(), 2);
    assert!(cache.policy_cached(&domain, 87400).is_none());
}
