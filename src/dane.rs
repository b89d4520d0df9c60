//! Transport-security requirements of a destination: DANE TLSA records and
//! MTA-STS policies, resolved through a cache that never masks a failed
//! DNSSEC validation as success.

use crate::cache::{is_live, CacheEntry, WeightedCache};
use crate::text::{fqdn_of, into_fqdn};
use vstd::prelude::*;

verus! {

/// Certificate usage: a trust anchor that must issue the chain (DANE-TA).
pub const CERT_USAGE_TRUST_ANCHOR: u8 = 2;
/// Certificate usage: the end-entity certificate itself (DANE-EE).
pub const CERT_USAGE_DOMAIN_ISSUED: u8 = 3;
/// Selector: the full certificate.
pub const SELECTOR_FULL: u8 = 0;
/// Selector: the subject public key info.
pub const SELECTOR_SPKI: u8 = 1;
/// Matching type: SHA-256 digest.
pub const MATCHING_SHA256: u8 = 1;
/// Matching type: SHA-512 digest.
pub const MATCHING_SHA512: u8 = 2;

/// One TLSA record as published.
#[derive(Debug)]
pub struct TlsaRecord {
    pub cert_usage: u8,
    pub selector: u8,
    pub matching: u8,
    pub cert_data: Vec<u8>,
}

/// One classified TLSA entry.
#[derive(Debug)]
pub struct TlsaEntry {
    pub is_end_entity: bool,
    pub is_sha256: bool,
    pub is_spki: bool,
    pub data: Vec<u8>,
}

/// The usable TLSA entries of a domain, with flags derived from them.
#[derive(Debug)]
pub struct Tlsa {
    pub entries: Vec<TlsaEntry>,
    pub has_end_entities: bool,
    pub has_intermediates: bool,
}

/// An entry as plain values: (end entity, SHA-256, SPKI, data).
pub type EntryView = (bool, bool, bool, Seq<u8>);

pub open spec fn entry_view(e: TlsaEntry) -> EntryView {
    (e.is_end_entity, e.is_sha256, e.is_spki, e.data@)
}

/// How one record is classified: skipped when its usage, matching type or
/// selector is not one of the two understood values.
pub open spec fn classify_record(r: TlsaRecord) -> Option<EntryView> {
    if (r.cert_usage == CERT_USAGE_DOMAIN_ISSUED || r.cert_usage == CERT_USAGE_TRUST_ANCHOR)
        && (r.matching == MATCHING_SHA256 || r.matching == MATCHING_SHA512) && (r.selector
        == SELECTOR_SPKI || r.selector == SELECTOR_FULL) {
        Some(
            (
                r.cert_usage == CERT_USAGE_DOMAIN_ISSUED,
                r.matching == MATCHING_SHA256,
                r.selector == SELECTOR_SPKI,
                r.cert_data@,
            ),
        )
    } else {
        None
    }
}

/// The entries kept from a sequence of records, in order.
pub open spec fn classified(rs: Seq<TlsaRecord>) -> Seq<EntryView>
    decreases rs.len(),
{
    if rs.len() == 0 {
        Seq::empty()
    } else {
        let prefix = classified(rs.drop_last());
        match classify_record(rs.last()) {
            Some(e) => prefix.push(e),
            None => prefix,
        }
    }
}

/// Whether some entry is for an end entity.
pub open spec fn any_end_entity(es: Seq<EntryView>) -> bool {
    exists|i: int| 0 <= i < es.len() && (#[trigger] es[i]).0
}

/// Whether some entry is for a trust anchor.
pub open spec fn any_intermediate(es: Seq<EntryView>) -> bool {
    exists|i: int| 0 <= i < es.len() && !(#[trigger] es[i]).0
}

impl Tlsa {
    pub open spec fn entries_view(&self) -> Seq<EntryView> {
        self.entries@.map_values(|e: TlsaEntry| entry_view(e))
    }

    /// The flags agree with the entries.
    pub open spec fn wf(&self) -> bool {
        &&& self.has_end_entities == any_end_entity(self.entries_view())
        &&& self.has_intermediates == any_intermediate(self.entries_view())
    }

    /// A copy with the same entries and flags.
    pub fn duplicate(&self) -> (r: Tlsa)
        ensures
            r.entries_view() == self.entries_view(),
            r.has_end_entities == self.has_end_entities,
            r.has_intermediates == self.has_intermediates,
    {
        let mut entries: Vec<TlsaEntry> = Vec::new();
        let mut i: usize = 0;
        while i < self.entries.len()
            invariant
                0 <= i <= self.entries@.len(),
                entries@.map_values(|e: TlsaEntry| entry_view(e)) =~= self.entries_view().subrange(
                    0,
                    i as int,
                ),
            decreases self.entries@.len() - i,
        {
            let e = &self.entries[i];
            let ghost before = entries@.map_values(|e: TlsaEntry| entry_view(e));
            entries.push(
                TlsaEntry {
                    is_end_entity: e.is_end_entity,
                    is_sha256: e.is_sha256,
                    is_spki: e.is_spki,
                    data: copy_bytes(e.data.as_slice()),
                },
            );
            proof {
                let after = entries@.map_values(|e: TlsaEntry| entry_view(e));
                assert(after =~= before.push(entry_view(self.entries@[i as int])));
                assert(self.entries_view().subrange(0, i + 1) =~= self.entries_view().subrange(
                    0,
                    i as int,
                ).push(entry_view(self.entries@[i as int])));
            }
            i = i + 1;
        }
        Tlsa {
            entries,
            has_end_entities: self.has_end_entities,
            has_intermediates: self.has_intermediates,
        }
    }
}

/// A copy of a byte string.
pub fn copy_bytes(b: &[u8]) -> (r: Vec<u8>)
    ensures
        r@ == b@,
{
    let mut out: Vec<u8> = Vec::with_capacity(b.len());
    let mut i: usize = 0;
    while i < b.len()
        invariant
            0 <= i <= b@.len(),
            out@ =~= b@.subrange(0, i as int),
        decreases b@.len() - i,
    {
        out.push(b[i]);
        i = i + 1;
    }
    out
}

/// Classifies raw TLSA records: unusable ones are skipped, and the flags are
/// derived from the entries that remain.
pub fn classify(records: &Vec<TlsaRecord>) -> (r: Tlsa)
    ensures
        r.entries_view() == classified(records@),
        r.wf(),
{
    let mut entries: Vec<TlsaEntry> = Vec::new();
    let mut has_end_entities = false;
    let mut has_intermediates = false;
    let mut i: usize = 0;
    while i < records.len()
        invariant
            0 <= i <= records@.len(),
            entries@.map_values(|e: TlsaEntry| entry_view(e)) =~= classified(
                records@.subrange(0, i as int),
            ),
            has_end_entities == any_end_entity(entries@.map_values(|e: TlsaEntry| entry_view(e))),
            has_intermediates == any_intermediate(
                entries@.map_values(|e: TlsaEntry| entry_view(e)),
            ),
        decreases records@.len() - i,
    {
        let rec = &records[i];
        proof {
            assert(records@.subrange(0, i + 1).drop_last() =~= records@.subrange(0, i as int));
            assert(records@.subrange(0, i + 1).last() == records@[i as int]);
        }
        let usage_ok = rec.cert_usage == CERT_USAGE_DOMAIN_ISSUED || rec.cert_usage
            == CERT_USAGE_TRUST_ANCHOR;
        let matching_ok = rec.matching == MATCHING_SHA256 || rec.matching == MATCHING_SHA512;
        let selector_ok = rec.selector == SELECTOR_SPKI || rec.selector == SELECTOR_FULL;
        if usage_ok && matching_ok && selector_ok {
            let is_end_entity = rec.cert_usage == CERT_USAGE_DOMAIN_ISSUED;
            let ghost before = entries@.map_values(|e: TlsaEntry| entry_view(e));
            entries.push(
                TlsaEntry {
                    is_end_entity,
                    is_sha256: rec.matching == MATCHING_SHA256,
                    is_spki: rec.selector == SELECTOR_SPKI,
                    data: copy_bytes(rec.cert_data.as_slice()),
                },
            );
            let ghost after = entries@.map_values(|e: TlsaEntry| entry_view(e));
            proof {
                assert(after =~= before.push(after.last()));
                if !is_end_entity && any_end_entity(after) {
                    let j = choose|j: int| 0 <= j < after.len() && (#[trigger] after[j]).0;
                    assert(before[j] == after[j]);
                }
                if is_end_entity && any_intermediate(after) {
                    let j = choose|j: int| 0 <= j < after.len() && !(#[trigger] after[j]).0;
                    assert(before[j] == after[j]);
                }
                if has_end_entities {
                    let j = choose|j: int| 0 <= j < before.len() && (#[trigger] before[j]).0;
                    assert(after[j] == before[j]);
                }
                if has_intermediates {
                    let j = choose|j: int| 0 <= j < before.len() && !(#[trigger] before[j]).0;
                    assert(after[j] == before[j]);
                }
                assert(after[after.len() - 1] == after.last());
            }
            if is_end_entity {
                has_end_entities = true;
            } else {
                has_intermediates = true;
            }
        }
        i = i + 1;
    }
    proof {
        assert(records@.subrange(0, records@.len() as int) =~= records@);
    }
    Tlsa { entries, has_end_entities, has_intermediates }
}

/// What the DNSSEC-aware resolver answered for a TLSA query.
#[derive(Debug)]
pub enum TlsaAnswer {
    /// Validated records, usable until the given instant.
    Records { records: Vec<TlsaRecord>, valid_until: u64 },
    /// The answer carried no DNSSEC signatures: there is no enforceable policy.
    Unsigned,
    /// Any other resolution failure, with its reason.
    Failed(String),
}

/// A resolution failure other than missing signatures.
#[derive(Debug)]
pub struct DnsError {
    pub reason: String,
}

/// How an MTA-STS policy treats delivery.
#[derive(Debug, Clone, Copy, PartialEq, Eq, Structural)]
pub enum PolicyMode {
    Enforce,
    Testing,
    Disabled,
}

/// One `mx` line of an MTA-STS policy: an exact host, or a `*.` wildcard
/// held as the suffix that follows the star.
#[derive(Debug)]
pub enum MxPattern {
    Equals(String),
    StartsWith(String),
}

/// A published MTA-STS policy.
#[derive(Debug)]
pub struct Policy {
    pub id: String,
    pub mode: PolicyMode,
    pub mx: Vec<MxPattern>,
    pub max_age: u64,
}

/// An `mx` pattern as plain values: (is wildcard, text).
pub open spec fn mx_view(m: MxPattern) -> (bool, Seq<char>) {
    match m {
        MxPattern::Equals(s) => (false, s@),
        MxPattern::StartsWith(s) => (true, s@),
    }
}

impl Policy {
    pub open spec fn mx_views(&self) -> Seq<(bool, Seq<char>)> {
        self.mx@.map_values(|m: MxPattern| mx_view(m))
    }

    /// Whether two policies hold the same values.
    pub open spec fn same_as(&self, o: &Policy) -> bool {
        &&& self.id@ == o.id@
        &&& self.mode == o.mode
        &&& self.mx_views() == o.mx_views()
        &&& self.max_age == o.max_age
    }

    /// A copy holding the same values.
    pub fn duplicate(&self) -> (r: Policy)
        ensures
            r.same_as(self),
    {
        let mut mx: Vec<MxPattern> = Vec::new();
        let mut i: usize = 0;
        while i < self.mx.len()
            invariant
                0 <= i <= self.mx@.len(),
                mx@.map_values(|m: MxPattern| mx_view(m)) =~= self.mx_views().subrange(0, i as int),
            decreases self.mx@.len() - i,
        {
            let ghost before = mx@.map_values(|m: MxPattern| mx_view(m));
            let p = match &self.mx[i] {
                MxPattern::Equals(s) => MxPattern::Equals(s.clone()),
                MxPattern::StartsWith(s) => MxPattern::StartsWith(s.clone()),
            };
            mx.push(p);
            proof {
                let after = mx@.map_values(|m: MxPattern| mx_view(m));
                assert(after =~= before.push(mx_view(self.mx@[i as int])));
                assert(self.mx_views().subrange(0, i + 1) =~= self.mx_views().subrange(
                    0,
                    i as int,
                ).push(mx_view(self.mx@[i as int])));
            }
            i = i + 1;
        }
        proof {
            assert(self.mx_views().subrange(0, self.mx@.len() as int) =~= self.mx_views());
        }
        Policy { id: self.id.clone(), mode: self.mode, mx, max_age: self.max_age }
    }
}

/// `a + b`, or the largest instant when that overflows.
pub open spec fn saturating_sum(a: u64, b: u64) -> u64 {
    if a as int + b as int > u64::MAX as int {
        u64::MAX
    } else {
        (a + b) as u64
    }
}

/// Whether `cache` holds a live entry under `key` at `now`.
pub open spec fn cache_has<V>(cache: Seq<CacheEntry<String, V>>, key: Seq<char>, now: u64) -> bool {
    exists|i: int| 0 <= i < cache.len() && cache[i].key@ == key && is_live(cache[i], now)
}

/// The TLSA and MTA-STS caches of the outbound path.
pub struct DnsCache {
    tlsa: WeightedCache<String, Tlsa>,
    mta_sts: WeightedCache<String, Policy>,
    tlsa_weight: u64,
    policy_weight: u64,
}

impl DnsCache {
    pub closed spec fn tlsa_cache(&self) -> WeightedCache<String, Tlsa> {
        self.tlsa
    }

    pub closed spec fn policy_cache(&self) -> WeightedCache<String, Policy> {
        self.mta_sts
    }

    /// The weight charged for each cached TLSA set.
    pub closed spec fn tlsa_item_weight(&self) -> u64 {
        self.tlsa_weight
    }

    /// The weight charged for each cached policy.
    pub closed spec fn policy_item_weight(&self) -> u64 {
        self.policy_weight
    }

    pub open spec fn wf(&self) -> bool {
        self.tlsa_cache().wf() && self.policy_cache().wf()
    }

    /// Empty caches of the given capacities, charging the given weight per item.
    pub fn new(tlsa_capacity: u64, tlsa_weight: u64, policy_capacity: u64, policy_weight: u64) -> (r: Self)
        ensures
            r.wf(),
            r.tlsa_cache().entries().len() == 0,
            r.policy_cache().entries().len() == 0,
            r.tlsa_cache().spec_capacity() == tlsa_capacity,
            r.policy_cache().spec_capacity() == policy_capacity,
            r.tlsa_item_weight() == tlsa_weight,
            r.policy_item_weight() == policy_weight,
    {
        DnsCache {
            tlsa: WeightedCache::new(tlsa_capacity),
            mta_sts: WeightedCache::new(policy_capacity),
            tlsa_weight,
            policy_weight,
        }
    }

    /// The cached TLSA set of a domain, looked up by its fully qualified name.
    pub fn tlsa_cached(&self, domain: &str, now: u64) -> (r: Option<Tlsa>)
        requires
            self.wf(),
        ensures
            r.is_some() <==> cache_has(self.tlsa_cache().entries(), fqdn_of(domain@), now),
            r matches Some(t) ==> exists|i: int|
                0 <= i < self.tlsa_cache().entries().len() && self.tlsa_cache().entries()[i].key@
                    == fqdn_of(domain@) && is_live(self.tlsa_cache().entries()[i], now)
                    && t.entries_view() == self.tlsa_cache().entries()[i].value.entries_view()
                    && t.has_end_entities == self.tlsa_cache().entries()[i].value.has_end_entities
                    && t.has_intermediates == self.tlsa_cache().entries()[i].value.has_intermediates,
    {
        let key = into_fqdn(domain);
        match self.tlsa.get(&key, now) {
            Some(t) => Some(t.duplicate()),
            None => None,
        }
    }

    /// Completes a TLSA lookup that missed the cache. Validated records are
    /// classified and cached until their validity ends; unsigned answers give
    /// no policy and no error; other failures are errors. Only validated
    /// records change the cache.
    pub fn tlsa_resolved(&mut self, domain: &str, answer: TlsaAnswer, now: u64) -> (r: Result<
        Option<Tlsa>,
        DnsError,
    >)
        requires
            old(self).wf(),
        ensures
            final(self).wf(),
            final(self).policy_cache() == old(self).policy_cache(),
            final(self).tlsa_item_weight() == old(self).tlsa_item_weight(),
            final(self).policy_item_weight() == old(self).policy_item_weight(),
            final(self).tlsa_cache().spec_capacity() == old(self).tlsa_cache().spec_capacity(),
            match answer {
                TlsaAnswer::Records { records, valid_until } => {
                    &&& r matches Ok(Some(t)) && t.entries_view() == classified(records@) && t.wf()
                    &&& crate::cache::inserted(
                        old(self).tlsa_cache().entries(),
                        final(self).tlsa_cache().entries(),
                        fqdn_of(domain@),
                        old(self).tlsa_item_weight(),
                        Some(valid_until),
                        old(self).tlsa_cache().spec_capacity(),
                    )
                    &&& old(self).tlsa_item_weight() <= old(self).tlsa_cache().spec_capacity()
                        ==> final(self).tlsa_cache().entries().last().value.entries_view()
                        == classified(records@)
                },
                TlsaAnswer::Unsigned => {
                    &&& r matches Ok(None)
                    &&& final(self).tlsa_cache() == old(self).tlsa_cache()
                },
                TlsaAnswer::Failed(reason) => {
                    &&& r matches Err(e) && e.reason@ == reason@
                    &&& final(self).tlsa_cache() == old(self).tlsa_cache()
                },
            },
    {
        match answer {
            TlsaAnswer::Records { records, valid_until } => {
                let tlsa = classify(&records);
                let key = into_fqdn(domain);
                let stored = tlsa.duplicate();
                self.tlsa.insert_with_expiry(key, stored, self.tlsa_weight, Some(valid_until));
                Ok(Some(tlsa))
            },
            TlsaAnswer::Unsigned => Ok(None),
            TlsaAnswer::Failed(reason) => Err(DnsError { reason }),
        }
    }

    /// The cached MTA-STS policy of a domain.
    pub fn policy_cached(&self, domain: &String, now: u64) -> (r: Option<Policy>)
        requires
            self.wf(),
        ensures
            r.is_some() <==> cache_has(self.policy_cache().entries(), domain@, now),
            r matches Some(p) ==> exists|i: int|
                0 <= i < self.policy_cache().entries().len()
                    && self.policy_cache().entries()[i].key@ == domain@ && is_live(
                    self.policy_cache().entries()[i],
                    now,
                ) && p.same_as(&self.policy_cache().entries()[i].value),
    {
        match self.mta_sts.get(domain, now) {
            Some(p) => Some(p.duplicate()),
            None => None,
        }
    }

    /// Caches a freshly fetched policy for its own max-age from `now`, and
    /// hands it back.
    pub fn policy_resolved(&mut self, domain: String, policy: Policy, now: u64) -> (r: Policy)
        requires
            old(self).wf(),
        ensures
            final(self).wf(),
            final(self).tlsa_cache() == old(self).tlsa_cache(),
            final(self).tlsa_item_weight() == old(self).tlsa_item_weight(),
            final(self).policy_item_weight() == old(self).policy_item_weight(),
            final(self).policy_cache().spec_capacity() == old(self).policy_cache().spec_capacity(),
            r.same_as(&policy),
            crate::cache::inserted(
                old(self).policy_cache().entries(),
                final(self).policy_cache().entries(),
                domain@,
                old(self).policy_item_weight(),
                Some(saturating_sum(now, policy.max_age)),
                old(self).policy_cache().spec_capacity(),
            ),
    {
        let expires = if policy.max_age > u64::MAX - now {
            u64::MAX
        } else {
            now + policy.max_age
        };
        let copy = policy.duplicate();
        self.mta_sts.insert_with_expiry(domain, copy, self.policy_weight, Some(expires));
        policy
    }
}

/// One end-entity record matched by SHA-256 over the public key gives one
/// entry, for an end entity, with no trust anchor.
pub proof fn lemma_single_end_entity(r: TlsaRecord)
    requires
        r.cert_usage == CERT_USAGE_DOMAIN_ISSUED,
        r.matching == MATCHING_SHA256,
        r.selector == SELECTOR_SPKI,
    ensures
        classified(seq![r]) == seq![(true, true, true, r.cert_data@)],
        any_end_entity(classified(seq![r])),
        !any_intermediate(classified(seq![r])),
{
    let one = seq![r];
    assert(one.drop_last() =~= Seq::<TlsaRecord>::empty());
    assert(one.last() == r);
    assert(classified(Seq::<TlsaRecord>::empty()) == Seq::<EntryView>::empty());
    assert(classify_record(r) == Some((true, true, true, r.cert_data@)));
    let es = classified(one);
    assert(es == Seq::<EntryView>::empty().push((true, true, true, r.cert_data@)));
    assert(es =~= seq![(true, true, true, r.cert_data@)]);
    assert(es[0].0);
}

/// Records that carry no usable entry classify to no entry and no flag: the
/// same policy as a domain that publishes none.
pub proof fn lemma_unusable_records_are_no_policy(rs: Seq<TlsaRecord>)
    requires
        forall|i: int| 0 <= i < rs.len() ==> classify_record(#[trigger] rs[i]).is_none(),
    ensures
        classified(rs) == Seq::<EntryView>::empty(),
        !any_end_entity(classified(rs)),
        !any_intermediate(classified(rs)),
    decreases rs.len(),
{
    if rs.len() > 0 {
        assert(classify_record(rs[rs.len() - 1]).is_none());
        lemma_unusable_records_are_no_policy(rs.drop_last());
    }
}

} // verus!
