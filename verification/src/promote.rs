//! The promotion stage's deterministic core: its configuration and
//! report, how a consensus report folds into an authoritative one, the
//! quorum decision for a group of compatible claims, the content and
//! subject fingerprints and the promotion dedup key.

use vstd::prelude::*;
use vstd::seq_lib::lemma_sorted_unique;
use vstd::utf8::encode_utf8;
use crate::bytes::{find_subseq, lemma_find_from, lower_bytes, lower_u8, occurs_at, push_bytes};
use crate::order::{
    lemma_lt_asymmetric, lemma_lt_irreflexive, lemma_lt_total, lemma_lt_transitive,
    lemma_text_order_is_total, seq_lt, seq_lt_exec, sort_texts, text_order,
};
use crate::parsers::{sha256, sha256_digest};
use crate::stamps::is_lower_hex;
use crate::strings::{chars_of, string_of};
use crate::text::{push_str, str_eq};

verus! {

/// Configuration for one promotion run: the consensus quorum.
#[derive(Debug, Clone, PartialEq, Eq)]
pub struct PromoteConfig {
    /// Minimum number of distinct claimants that must agree on a
    /// compatible claim before it promotes.
    pub min_independent_claimants: u32,
}

/// The default quorum of independent claimants.
pub const DEFAULT_MIN_INDEPENDENT_CLAIMANTS: u32 = 3;

impl Default for PromoteConfig {
    fn default() -> (r: Self)
        ensures
            r.min_independent_claimants == DEFAULT_MIN_INDEPENDENT_CLAIMANTS,
    {
        PromoteConfig { min_independent_claimants: DEFAULT_MIN_INDEPENDENT_CLAIMANTS }
    }
}

/// Summary of one promotion pass.
#[derive(Debug, Clone, PartialEq, Eq)]
pub struct PromoteReport {
    pub assertions_considered: u32,
    pub groups_promoted: u32,
    pub skipped_already_promoted: u32,
    pub observations_emitted: u32,
    pub events_emitted: u32,
    pub relations_emitted: u32,
    pub entity_attributes_emitted: u32,
    pub insert_failures: u32,
    pub authoritative_promoted: u32,
}

/// Why a promotion pass could not run at all; per-record failures are
/// counted in the report instead.
#[derive(Debug, Clone, PartialEq, Eq)]
pub enum PromoteError {
    /// The store could not read the plan's claims.
    Storage(String),
}

impl PromoteError {
    /// `storage error: {0}`
    pub fn message(&self) -> (r: String)
        ensures
            r@ == "storage error: "@ + (match *self {
                PromoteError::Storage(m) => m@,
            }),
    {
        let mut out: Vec<char> = Vec::new();
        match self {
            PromoteError::Storage(m) => {
                push_str(&mut out, "storage error: ");
                push_str(&mut out, m.as_str());
            },
        }
        string_of(out.as_slice())
    }
}

/// Every counter zero.
pub open spec fn is_zero_report(r: PromoteReport) -> bool {
    &&& r.assertions_considered == 0
    &&& r.groups_promoted == 0
    &&& r.skipped_already_promoted == 0
    &&& r.observations_emitted == 0
    &&& r.events_emitted == 0
    &&& r.relations_emitted == 0
    &&& r.entity_attributes_emitted == 0
    &&& r.insert_failures == 0
    &&& r.authoritative_promoted == 0
}

impl Default for PromoteReport {
    fn default() -> (r: Self)
        ensures
            is_zero_report(r),
    {
        PromoteReport {
            assertions_considered: 0,
            groups_promoted: 0,
            skipped_already_promoted: 0,
            observations_emitted: 0,
            events_emitted: 0,
            relations_emitted: 0,
            entity_attributes_emitted: 0,
            insert_failures: 0,
            authoritative_promoted: 0,
        }
    }
}

/// `a + b`, saturating at `u32::MAX`.
pub open spec fn sat_add(a: u32, b: u32) -> u32 {
    if a + b > u32::MAX {
        u32::MAX
    } else {
        (a + b) as u32
    }
}

/// The report after folding in a consensus pass: the consensus-side
/// counters add (saturating); the considered count and the
/// authoritative count stay.
pub open spec fn spec_merge(report: PromoteReport, consensus: PromoteReport) -> PromoteReport {
    PromoteReport {
        assertions_considered: report.assertions_considered,
        groups_promoted: sat_add(report.groups_promoted, consensus.groups_promoted),
        skipped_already_promoted: sat_add(report.skipped_already_promoted, consensus.skipped_already_promoted),
        observations_emitted: sat_add(report.observations_emitted, consensus.observations_emitted),
        events_emitted: sat_add(report.events_emitted, consensus.events_emitted),
        relations_emitted: sat_add(report.relations_emitted, consensus.relations_emitted),
        entity_attributes_emitted: sat_add(report.entity_attributes_emitted, consensus.entity_attributes_emitted),
        insert_failures: sat_add(report.insert_failures, consensus.insert_failures),
        authoritative_promoted: report.authoritative_promoted,
    }
}

/// Merge a consensus-pass report into an authoritative-pass report.
pub fn merge_consensus_into(report: &mut PromoteReport, consensus: PromoteReport)
    ensures
        *final(report) == spec_merge(*old(report), consensus),
{
    report.groups_promoted = report.groups_promoted.saturating_add(consensus.groups_promoted);
    report.skipped_already_promoted = report.skipped_already_promoted.saturating_add(
        consensus.skipped_already_promoted,
    );
    report.observations_emitted = report.observations_emitted.saturating_add(consensus.observations_emitted);
    report.events_emitted = report.events_emitted.saturating_add(consensus.events_emitted);
    report.relations_emitted = report.relations_emitted.saturating_add(consensus.relations_emitted);
    report.entity_attributes_emitted = report.entity_attributes_emitted.saturating_add(
        consensus.entity_attributes_emitted,
    );
    report.insert_failures = report.insert_failures.saturating_add(consensus.insert_failures);
}

/// Law: folding in an empty consensus report changes nothing.
pub proof fn law_merge_zero_is_identity(report: PromoteReport, consensus: PromoteReport)
    requires
        is_zero_report(consensus),
    ensures
        spec_merge(report, consensus) == report,
{
}

/// Law: folding in a consensus report never lowers a counter.
pub proof fn law_merge_is_monotone(report: PromoteReport, consensus: PromoteReport)
    ensures
        spec_merge(report, consensus).groups_promoted >= report.groups_promoted,
        spec_merge(report, consensus).skipped_already_promoted >= report.skipped_already_promoted,
        spec_merge(report, consensus).observations_emitted >= report.observations_emitted,
        spec_merge(report, consensus).events_emitted >= report.events_emitted,
        spec_merge(report, consensus).relations_emitted >= report.relations_emitted,
        spec_merge(report, consensus).entity_attributes_emitted >= report.entity_attributes_emitted,
        spec_merge(report, consensus).insert_failures >= report.insert_failures,
        spec_merge(report, consensus).groups_promoted >= consensus.groups_promoted,
        spec_merge(report, consensus).insert_failures >= consensus.insert_failures,
{
}

// ---------------------------------------------------------------------------
// Quorum
// ---------------------------------------------------------------------------

/// The number of distinct claimants among the first `n` of `cs`.
pub open spec fn distinct_count(cs: Seq<Seq<char>>) -> nat
    decreases cs.len(),
{
    if cs.len() == 0 {
        0
    } else if cs.drop_last().contains(cs.last()) {
        distinct_count(cs.drop_last())
    } else {
        distinct_count(cs.drop_last()) + 1
    }
}

/// The quorum a group must meet: the configured minimum, lowered to the
/// smallest per-claimant override that applies to a group member.
pub open spec fn effective_quorum(overrides: Seq<u32>, min: u32) -> u32
    decreases overrides.len(),
{
    if overrides.len() == 0 {
        min
    } else if overrides.last() < effective_quorum(overrides.drop_last(), min) {
        overrides.last()
    } else {
        effective_quorum(overrides.drop_last(), min)
    }
}

/// Law: a group counts each claimant once, however many claims it made:
/// the distinct count never exceeds the number of claims, and claims
/// that all come from one claimant count as one.
pub proof fn law_repeated_claimant_counts_once(cs: Seq<Seq<char>>)
    ensures
        distinct_count(cs) <= cs.len(),
        cs.len() > 0 && (forall|i: int| 0 <= i < cs.len() ==> #[trigger] cs[i] == cs[0]) ==> distinct_count(cs) == 1,
    decreases cs.len(),
{
    if cs.len() > 0 {
        let init = cs.drop_last();
        law_repeated_claimant_counts_once(init);
        if cs.len() > 1 && (forall|i: int| 0 <= i < cs.len() ==> #[trigger] cs[i] == cs[0]) {
            assert forall|i: int| 0 <= i < init.len() implies #[trigger] init[i] == init[0] by {
                assert(init[i] == cs[i] && init[0] == cs[0]);
            }
            assert(init[0] == cs.last());
            assert(init.contains(cs.last()));
        }
    }
}

/// Law: the distinct claimant count of a group is the number of
/// different claimants in it: the size of the set of its claimants,
/// wherever in the group a claimant repeats.
pub proof fn law_distinct_count_is_set_size(cs: Seq<Seq<char>>)
    ensures
        distinct_count(cs) == cs.to_set().len(),
    decreases cs.len(),
{
    broadcast use vstd::seq_lib::seq_to_set_is_finite;
    broadcast use vstd::set::axiom_set_insert_len;
    if cs.len() == 0 {
        assert(cs.to_set() =~= Set::<Seq<char>>::empty());
    } else {
        let init = cs.drop_last();
        law_distinct_count_is_set_size(init);
        assert(init.push(cs.last()) =~= cs);
        init.lemma_push_to_set_commute(cs.last());
        assert(init.to_set().contains(cs.last()) == init.contains(cs.last()));
    }
}

fn contains_prefix(cs: &Vec<String>, n: usize, x: &str) -> (r: bool)
    requires
        n <= cs.len(),
    ensures
        r == cs.deep_view().take(n as int).contains(x@),
{
    let ghost t = cs.deep_view().take(n as int);
    let mut i: usize = 0;
    while i < n
        invariant
            i <= n <= cs.len(),
            t == cs.deep_view().take(n as int),
            forall|j: int| 0 <= j < i ==> t[j] != x@,
        decreases n - i,
    {
        if str_eq(cs[i].as_str(), x) {
            assert(t[i as int] == x@);
            return true;
        }
        i += 1;
    }
    false
}

/// Whether a group of compatible claims promotes: the number of its
/// distinct claimants reaches the effective quorum. `quorum_overrides`
/// are the consensus quorums configured for the group's claimants.
pub fn meets_quorum(claimants: &Vec<String>, quorum_overrides: &[u32], min_independent_claimants: u32) -> (r: bool)
    ensures
        r == (distinct_count(claimants.deep_view()) >= effective_quorum(
            quorum_overrides@,
            min_independent_claimants,
        )),
        r == (claimants.deep_view().to_set().len() >= effective_quorum(quorum_overrides@, min_independent_claimants)),
{
    proof {
        law_distinct_count_is_set_size(claimants.deep_view());
    }
    let ghost cv = claimants.deep_view();
    let mut count: usize = 0;
    let mut i: usize = 0;
    assert(cv.take(0) =~= Seq::<Seq<char>>::empty());
    while i < claimants.len()
        invariant
            i <= claimants.len(),
            cv == claimants.deep_view(),
            count == distinct_count(cv.take(i as int)),
            count <= i,
        decreases claimants.len() - i,
    {
        let ghost t = cv.take(i + 1);
        assert(t.drop_last() =~= cv.take(i as int));
        if !contains_prefix(claimants, i, claimants[i].as_str()) {
            count += 1;
        }
        i += 1;
    }
    assert(cv.take(claimants.len() as int) =~= cv);
    let mut q = min_independent_claimants;
    let mut k: usize = 0;
    assert(quorum_overrides@.take(0) =~= Seq::<u32>::empty());
    while k < quorum_overrides.len()
        invariant
            k <= quorum_overrides.len(),
            q == effective_quorum(quorum_overrides@.take(k as int), min_independent_claimants),
        decreases quorum_overrides.len() - k,
    {
        let ghost t = quorum_overrides@.take(k + 1);
        assert(t.drop_last() =~= quorum_overrides@.take(k as int));
        if quorum_overrides[k] < q {
            q = quorum_overrides[k];
        }
        k += 1;
    }
    assert(quorum_overrides@.take(quorum_overrides.len() as int) =~= quorum_overrides@);
    count as u64 >= q as u64
}

// ---------------------------------------------------------------------------
// Fingerprints
// ---------------------------------------------------------------------------

/// Lower-case hexadecimal digit of `d` (< 16).
pub open spec fn hex_digit(d: u8) -> char {
    if d < 10 {
        (48 + d) as char
    } else {
        (87 + d) as char
    }
}

/// Two lower-case hexadecimal digits per byte.
pub open spec fn hex_of(bytes: Seq<u8>) -> Seq<char>
    decreases bytes.len(),
{
    if bytes.len() == 0 {
        Seq::empty()
    } else {
        hex_of(bytes.drop_last()) + seq![hex_digit(bytes.last() / 16), hex_digit(bytes.last() % 16)]
    }
}

/// The 128-bit fingerprint: the first 16 bytes of the SHA-256 digest, in
/// 32 lower-case hexadecimal digits.
pub open spec fn spec_hex128(bytes: Seq<u8>) -> Seq<char> {
    hex_of(sha256_digest(bytes).take(16))
}

fn hex_digit_exec(d: u8) -> (r: char)
    requires
        d < 16,
    ensures
        r == hex_digit(d),
{
    if d < 10 {
        (48 + d) as char
    } else {
        (87 + d) as char
    }
}

proof fn lemma_hex_shape(bytes: Seq<u8>)
    ensures
        hex_of(bytes).len() == 2 * bytes.len(),
        forall|i: int| 0 <= i < hex_of(bytes).len() ==> is_lower_hex(#[trigger] hex_of(bytes)[i]),
    decreases bytes.len(),
{
    if bytes.len() > 0 {
        lemma_hex_shape(bytes.drop_last());
        let b = bytes.last();
        assert(is_lower_hex(hex_digit(b / 16)) && is_lower_hex(hex_digit(b % 16)));
        let h = hex_of(bytes.drop_last());
        assert forall|i: int| 0 <= i < hex_of(bytes).len() implies is_lower_hex(#[trigger] hex_of(bytes)[i]) by {
            if i < h.len() {
                assert(hex_of(bytes)[i] == h[i]);
            }
        }
    }
}

/// 128-bit fingerprint of `bytes` as 32 lower-case hexadecimal digits.
pub fn hex128(bytes: &[u8]) -> (r: String)
    ensures
        r@ == spec_hex128(bytes@),
        r@.len() == 32,
        forall|i: int| 0 <= i < 32 ==> is_lower_hex(#[trigger] r@[i]),
{
    let digest = sha256(bytes);
    let mut out: Vec<char> = Vec::new();
    let mut i: usize = 0;
    assert(digest@.take(0) =~= Seq::<u8>::empty());
    while i < 16
        invariant
            i <= 16,
            digest@.len() == 32,
            out@ == hex_of(digest@.take(i as int)),
        decreases 16 - i,
    {
        let b = digest[i];
        out.push(hex_digit_exec(b / 16));
        out.push(hex_digit_exec(b % 16));
        proof {
            let t = digest@.take(i + 1);
            assert(t.drop_last() =~= digest@.take(i as int));
            assert(out@ =~= hex_of(t));
        }
        i += 1;
    }
    proof {
        lemma_hex_shape(digest@.take(16));
    }
    string_of(out.as_slice())
}

/// `promotion:{content_hash}:{subject_hash}`
pub open spec fn spec_promotion_dedup_key(content_hash: Seq<char>, subject_hash: Seq<char>) -> Seq<char> {
    "promotion:"@ + content_hash + ":"@ + subject_hash
}

/// The content-derived dedup key of a promoted record.
pub fn promotion_dedup_key(content_hash: &str, subject_hash: &str) -> (r: String)
    ensures
        r@ == spec_promotion_dedup_key(content_hash@, subject_hash@),
{
    let mut out: Vec<char> = Vec::new();
    push_str(&mut out, "promotion:");
    push_str(&mut out, content_hash);
    push_str(&mut out, ":");
    push_str(&mut out, subject_hash);
    string_of(out.as_slice())
}

// ---------------------------------------------------------------------------
// Subject fingerprint
// ---------------------------------------------------------------------------

/// What a claim is about: its topics and its entities, each in no
/// particular order.
#[derive(Debug, Clone, PartialEq, Eq)]
pub struct Subjects {
    pub topics: Vec<String>,
    pub entities: Vec<String>,
}

/// One line per item: the tag, the item's UTF-8 bytes and a newline.
pub open spec fn tagged_lines(tag: Seq<u8>, items: Seq<Seq<char>>) -> Seq<u8>
    decreases items.len(),
{
    if items.len() == 0 {
        Seq::empty()
    } else {
        tagged_lines(tag, items.drop_last()) + tag + encode_utf8(items.last()) + seq![10u8]
    }
}

/// `t:`
pub open spec fn topic_tag() -> Seq<u8> {
    seq![116u8, 58u8]
}

/// `e:`
pub open spec fn entity_tag() -> Seq<u8> {
    seq![101u8, 58u8]
}

/// The bytes the subject fingerprint hashes: the sorted topics, then the
/// sorted entities, one tagged line each.
pub open spec fn subject_bytes(topics: Seq<Seq<char>>, entities: Seq<Seq<char>>) -> Seq<u8> {
    tagged_lines(topic_tag(), topics.sort_by(text_order())) + tagged_lines(
        entity_tag(),
        entities.sort_by(text_order()),
    )
}

/// The subject fingerprint.
pub open spec fn spec_subject_hash(topics: Seq<Seq<char>>, entities: Seq<Seq<char>>) -> Seq<char> {
    spec_hex128(subject_bytes(topics, entities))
}

fn push_tagged_lines(out: &mut Vec<u8>, tag: &[u8], items: &Vec<String>)
    ensures
        final(out)@ == old(out)@ + tagged_lines(tag@, items.deep_view()),
{
    let ghost dv = items.deep_view();
    let mut i: usize = 0;
    assert(dv.take(0) =~= Seq::<Seq<char>>::empty());
    while i < items.len()
        invariant
            i <= items.len(),
            dv == items.deep_view(),
            out@ == old(out)@ + tagged_lines(tag@, dv.take(i as int)),
        decreases items.len() - i,
    {
        let ghost before = out@;
        push_bytes(out, tag);
        push_bytes(out, items[i].as_str().as_bytes());
        out.push(10u8);
        proof {
            let t = dv.take(i + 1);
            assert(t.drop_last() =~= dv.take(i as int));
            assert(t.last() == dv[i as int]);
            assert(out@ =~= old(out)@ + tagged_lines(tag@, t));
        }
        i += 1;
    }
    assert(dv.take(items.len() as int) =~= dv);
}

/// Subject fingerprint of a claim: the 128-bit fingerprint of its topics
/// and entities, each list sorted first so that its order does not
/// matter.
pub fn subject_hash_for(subjects: &Subjects) -> (r: String)
    ensures
        r@ == spec_subject_hash(subjects.topics.deep_view(), subjects.entities.deep_view()),
        r@.len() == 32,
        forall|i: int| 0 <= i < 32 ==> is_lower_hex(#[trigger] r@[i]),
{
    let topics = sort_texts(&subjects.topics);
    let entities = sort_texts(&subjects.entities);
    let mut buf: Vec<u8> = Vec::new();
    let t: [u8; 2] = [116u8, 58u8];
    let e: [u8; 2] = [101u8, 58u8];
    assert(t@ =~= topic_tag());
    assert(e@ =~= entity_tag());
    push_tagged_lines(&mut buf, &t, &topics);
    push_tagged_lines(&mut buf, &e, &entities);
    assert(buf@ =~= subject_bytes(subjects.topics.deep_view(), subjects.entities.deep_view()));
    hex128(buf.as_slice())
}

/// Law: the subject fingerprint depends on which topics and entities a
/// claim names, with their multiplicities, and not on their order.
pub proof fn law_subject_hash_ignores_order(
    topics_a: Seq<Seq<char>>,
    topics_b: Seq<Seq<char>>,
    entities_a: Seq<Seq<char>>,
    entities_b: Seq<Seq<char>>,
)
    requires
        topics_a.to_multiset() == topics_b.to_multiset(),
        entities_a.to_multiset() == entities_b.to_multiset(),
    ensures
        spec_subject_hash(topics_a, entities_a) == spec_subject_hash(topics_b, entities_b),
{
    lemma_text_order_is_total();
    let le = text_order();
    topics_a.lemma_sort_by_ensures(le);
    topics_b.lemma_sort_by_ensures(le);
    entities_a.lemma_sort_by_ensures(le);
    entities_b.lemma_sort_by_ensures(le);
    lemma_sorted_unique(topics_a.sort_by(le), topics_b.sort_by(le), le);
    lemma_sorted_unique(entities_a.sort_by(le), entities_b.sort_by(le), le);
}

// ---------------------------------------------------------------------------
// Consensus grouping
// ---------------------------------------------------------------------------

/// The key consensus grouping uses: a claim's content fingerprint and
/// its subject fingerprint.
#[derive(Debug, Clone, PartialEq, Eq)]
pub struct GroupKey {
    pub content_hash: String,
    pub subject_hash: String,
}

/// Claims that share one key, by their indices among the claims, in
/// increasing order.
#[derive(Debug, Clone, PartialEq, Eq)]
pub struct ConsensusGroup {
    pub key: GroupKey,
    pub members: Vec<usize>,
}

/// A key as text.
pub open spec fn key_of(k: GroupKey) -> (Seq<char>, Seq<char>) {
    (k.content_hash@, k.subject_hash@)
}

/// The order of keys: by content fingerprint, then by subject fingerprint.
pub open spec fn key_lt(a: (Seq<char>, Seq<char>), b: (Seq<char>, Seq<char>)) -> bool {
    seq_lt(a.0, b.0) || (a.0 == b.0 && seq_lt(a.1, b.1))
}

/// `groups` groups `keys`: the groups come in increasing key order, each
/// is non-empty, lists its members in increasing order, holds only
/// claims with its key, and every claim is a member of some group.
pub open spec fn is_consensus_grouping(keys: Seq<GroupKey>, groups: Seq<ConsensusGroup>) -> bool {
    &&& forall|i: int, j: int|
        0 <= i < j < groups.len() ==> key_lt(key_of(#[trigger] groups[i].key), key_of(#[trigger] groups[j].key))
    &&& forall|g: int| 0 <= g < groups.len() ==> (#[trigger] groups[g]).members@.len() > 0
    &&& forall|g: int, a: int, b: int|
        0 <= g < groups.len() && 0 <= a < b < groups[g].members@.len() ==> #[trigger] groups[g].members@[a]
            < #[trigger] groups[g].members@[b]
    &&& forall|g: int, a: int|
        0 <= g < groups.len() && 0 <= a < groups[g].members@.len() ==> #[trigger] groups[g].members@[a]
            < keys.len() && key_of(keys[groups[g].members@[a] as int]) == key_of(groups[g].key)
    &&& forall|i: int| 0 <= i < keys.len() ==> #[trigger] is_grouped(groups, i)
}

/// Claim `i` is a member of one of `groups`.
pub open spec fn is_grouped(groups: Seq<ConsensusGroup>, i: int) -> bool {
    exists|g: int, a: int| 0 <= g < groups.len() && 0 <= a < groups[g].members@.len() && #[trigger] groups[g].members@[a] == i
}

proof fn lemma_key_lt_transitive(a: (Seq<char>, Seq<char>), b: (Seq<char>, Seq<char>), c: (Seq<char>, Seq<char>))
    requires
        key_lt(a, b),
        key_lt(b, c),
    ensures
        key_lt(a, c),
{
    if seq_lt(a.0, b.0) && seq_lt(b.0, c.0) {
        lemma_lt_transitive(a.0, b.0, c.0);
    } else if seq_lt(a.1, b.1) && seq_lt(b.1, c.1) && a.0 == b.0 && b.0 == c.0 {
        lemma_lt_transitive(a.1, b.1, c.1);
    }
}

proof fn lemma_key_lt_total(a: (Seq<char>, Seq<char>), b: (Seq<char>, Seq<char>))
    requires
        a != b,
    ensures
        key_lt(a, b) || key_lt(b, a),
{
    if a.0 != b.0 {
        lemma_lt_total(a.0, b.0);
    } else {
        assert(a.1 != b.1);
        lemma_lt_total(a.1, b.1);
    }
}

proof fn lemma_key_lt_irreflexive(a: (Seq<char>, Seq<char>))
    ensures
        !key_lt(a, a),
{
    lemma_lt_irreflexive(a.0);
    lemma_lt_irreflexive(a.1);
}

fn key_lt_exec(a: &GroupKey, b: &GroupKey) -> (r: bool)
    ensures
        r == key_lt(key_of(*a), key_of(*b)),
{
    if seq_lt_exec(&a.content_hash, &b.content_hash) {
        true
    } else if str_eq(a.content_hash.as_str(), b.content_hash.as_str()) {
        seq_lt_exec(&a.subject_hash, &b.subject_hash)
    } else {
        false
    }
}

fn key_eq_exec(a: &GroupKey, b: &GroupKey) -> (r: bool)
    ensures
        r == (key_of(*a) == key_of(*b)),
{
    str_eq(a.content_hash.as_str(), b.content_hash.as_str()) && str_eq(
        a.subject_hash.as_str(),
        b.subject_hash.as_str(),
    )
}

/// Group claims by their keys, in increasing key order.
pub fn group_assertions_for_consensus(keys: &Vec<GroupKey>) -> (r: Vec<ConsensusGroup>)
    ensures
        is_consensus_grouping(keys@, r@),
{
    let mut groups: Vec<ConsensusGroup> = Vec::new();
    let mut i: usize = 0;
    assert(keys@.take(0) =~= Seq::<GroupKey>::empty());
    while i < keys.len()
        invariant
            i <= keys.len(),
            is_consensus_grouping(keys@.take(i as int), groups@),
        decreases keys.len() - i,
    {
        let k = &keys[i];
        let mut p: usize = 0;
        while p < groups.len() && key_lt_exec(&groups[p].key, k)
            invariant
                p <= groups.len(),
                forall|q: int| 0 <= q < p ==> key_lt(key_of(#[trigger] groups@[q].key), key_of(*k)),
            decreases groups.len() - p,
        {
            p += 1;
        }
        let ghost old_groups = groups@;
        let ghost old_keys = keys@.take(i as int);
        let ghost new_keys = keys@.take(i + 1);
        proof {
            assert(new_keys =~= old_keys.push(*k));
            assert forall|g: int, a: int|
                0 <= g < old_groups.len() && 0 <= a < old_groups[g].members@.len() implies #[trigger] old_groups[g].members@[a]
                < i by {
                assert(old_groups[g].members@[a] < old_keys.len());
            }
        }
        if p < groups.len() && key_eq_exec(&groups[p].key, k) {
            let mut g = groups.remove(p);
            let ghost old_members = g.members@;
            g.members.push(i);
            groups.insert(p, g);
            proof {
                let ng = groups@;
                assert(ng =~= old_groups.update(p as int, g));
                assert forall|x: int, y: int| 0 <= x < y < ng.len() implies key_lt(
                    key_of(#[trigger] ng[x].key),
                    key_of(#[trigger] ng[y].key),
                ) by {
                    assert(key_of(ng[x].key) == key_of(old_groups[x].key));
                    assert(key_of(ng[y].key) == key_of(old_groups[y].key));
                }
                assert forall|gg: int| 0 <= gg < ng.len() implies (#[trigger] ng[gg]).members@.len() > 0 by {
                    if gg != p {
                        assert(ng[gg] == old_groups[gg]);
                    }
                }
                assert forall|gg: int, a: int, b: int|
                    0 <= gg < ng.len() && 0 <= a < b < ng[gg].members@.len() implies #[trigger] ng[gg].members@[a]
                    < #[trigger] ng[gg].members@[b] by {
                    if gg != p {
                        assert(ng[gg] == old_groups[gg]);
                    } else {
                        assert(ng[gg].members@ == old_members.push(i));
                        if b == old_members.len() {
                            assert(old_groups[gg].members@[a] < i);
                        } else {
                            assert(old_groups[gg].members@[a] < old_groups[gg].members@[b]);
                        }
                    }
                }
                assert forall|gg: int, a: int| 0 <= gg < ng.len() && 0 <= a < ng[gg].members@.len() implies #[trigger] ng[gg].members@[a]
                    < new_keys.len() && key_of(new_keys[ng[gg].members@[a] as int]) == key_of(ng[gg].key) by {
                    if gg != p {
                        assert(ng[gg] == old_groups[gg]);
                        assert(old_groups[gg].members@[a] < old_keys.len());
                        assert(new_keys[old_groups[gg].members@[a] as int] == old_keys[old_groups[gg].members@[a] as int]);
                    } else if a < old_members.len() {
                        assert(ng[gg].members@[a] == old_groups[gg].members@[a]);
                        assert(old_groups[gg].members@[a] < old_keys.len());
                        assert(new_keys[old_groups[gg].members@[a] as int] == old_keys[old_groups[gg].members@[a] as int]);
                    } else {
                        assert(ng[gg].members@[a] == i);
                    }
                }
                assert forall|j: int| 0 <= j < new_keys.len() implies #[trigger] is_grouped(ng, j) by {
                    if j < i {
                        assert(old_keys.len() == i);
                        assert(is_grouped(old_groups, j));
                        let (gg, a) = choose|gg: int, a: int|
                            0 <= gg < old_groups.len() && 0 <= a < old_groups[gg].members@.len()
                                && #[trigger] old_groups[gg].members@[a] == j;
                        if gg == p {
                            assert(ng[gg].members@[a] == j);
                        } else {
                            assert(ng[gg] == old_groups[gg]);
                            assert(ng[gg].members@[a] == j);
                        }
                    } else {
                        assert(ng[p as int].members@[old_members.len() as int] == j);
                    }
                }
            }
        } else {
            let key = GroupKey { content_hash: k.content_hash.clone(), subject_hash: k.subject_hash.clone() };
            let newg = ConsensusGroup { key, members: vec![i] };
            proof {
                assert(key_of(newg.key) == key_of(*k));
                if p < old_groups.len() {
                    assert(!key_lt(key_of(old_groups[p as int].key), key_of(*k)));
                    assert(key_of(old_groups[p as int].key) != key_of(*k));
                    lemma_key_lt_total(key_of(old_groups[p as int].key), key_of(*k));
                }
            }
            groups.insert(p, newg);
            proof {
                let ng = groups@;
                assert(ng =~= old_groups.insert(p as int, newg));
                assert forall|x: int, y: int| 0 <= x < y < ng.len() implies key_lt(
                    key_of(#[trigger] ng[x].key),
                    key_of(#[trigger] ng[y].key),
                ) by {
                    if y < p {
                        assert(ng[x] == old_groups[x] && ng[y] == old_groups[y]);
                    } else if y == p {
                        assert(ng[x] == old_groups[x]);
                    } else if x < p {
                        assert(ng[x] == old_groups[x] && ng[y] == old_groups[y - 1]);
                        lemma_key_lt_transitive(key_of(old_groups[x].key), key_of(*k), key_of(old_groups[p as int].key));
                        if y - 1 > p {
                            lemma_key_lt_transitive(key_of(old_groups[x].key), key_of(old_groups[p as int].key), key_of(old_groups[y - 1].key));
                        }
                    } else if x == p {
                        assert(ng[y] == old_groups[y - 1]);
                        if y - 1 > p {
                            lemma_key_lt_transitive(key_of(*k), key_of(old_groups[p as int].key), key_of(old_groups[y - 1].key));
                        }
                    } else {
                        assert(ng[x] == old_groups[x - 1] && ng[y] == old_groups[y - 1]);
                    }
                }
                assert forall|gg: int| 0 <= gg < ng.len() implies (#[trigger] ng[gg]).members@.len() > 0 by {
                    if gg < p {
                        assert(ng[gg] == old_groups[gg]);
                    } else if gg > p {
                        assert(ng[gg] == old_groups[gg - 1]);
                    }
                }
                assert forall|gg: int, a: int, b: int|
                    0 <= gg < ng.len() && 0 <= a < b < ng[gg].members@.len() implies #[trigger] ng[gg].members@[a]
                    < #[trigger] ng[gg].members@[b] by {
                    if gg < p {
                        assert(ng[gg] == old_groups[gg]);
                    } else if gg > p {
                        assert(ng[gg] == old_groups[gg - 1]);
                    }
                }
                assert forall|gg: int, a: int| 0 <= gg < ng.len() && 0 <= a < ng[gg].members@.len() implies #[trigger] ng[gg].members@[a]
                    < new_keys.len() && key_of(new_keys[ng[gg].members@[a] as int]) == key_of(ng[gg].key) by {
                    if gg == p {
                        assert(ng[gg].members@[a] == i);
                    } else {
                        let og = if gg < p { gg } else { gg - 1 };
                        assert(ng[gg] == old_groups[og]);
                        assert(old_groups[og].members@[a] < old_keys.len());
                        assert(new_keys[old_groups[og].members@[a] as int] == old_keys[old_groups[og].members@[a] as int]);
                    }
                }
                assert forall|j: int| 0 <= j < new_keys.len() implies #[trigger] is_grouped(ng, j) by {
                    if j < i {
                        assert(old_keys.len() == i);
                        assert(is_grouped(old_groups, j));
                        let (gg, a) = choose|gg: int, a: int|
                            0 <= gg < old_groups.len() && 0 <= a < old_groups[gg].members@.len()
                                && #[trigger] old_groups[gg].members@[a] == j;
                        let ng_i = if gg < p { gg } else { gg + 1 };
                        assert(ng[ng_i] == old_groups[gg]);
                        assert(ng[ng_i].members@[a] == j);
                    } else {
                        assert(ng[p as int].members@[0] == j);
                    }
                }
            }
        }
        i += 1;
    }
    assert(keys@.take(keys.len() as int) =~= keys@);
    groups
}

/// Law: in a grouping, two claims share a group exactly when their keys
/// agree; so each claim sits in exactly one group.
pub proof fn law_grouping_joins_exactly_equal_keys(
    keys: Seq<GroupKey>,
    groups: Seq<ConsensusGroup>,
    g: int,
    a: int,
    h: int,
    b: int,
)
    requires
        is_consensus_grouping(keys, groups),
        0 <= g < groups.len(),
        0 <= a < groups[g].members@.len(),
        0 <= h < groups.len(),
        0 <= b < groups[h].members@.len(),
    ensures
        (g == h) <==> key_of(keys[groups[g].members@[a] as int]) == key_of(keys[groups[h].members@[b] as int]),
{
    assert(key_of(keys[groups[g].members@[a] as int]) == key_of(groups[g].key));
    assert(key_of(keys[groups[h].members@[b] as int]) == key_of(groups[h].key));
    lemma_key_lt_irreflexive(key_of(groups[g].key));
    if g < h {
        assert(key_lt(key_of(groups[g].key), key_of(groups[h].key)));
    } else if h < g {
        assert(key_lt(key_of(groups[h].key), key_of(groups[g].key)));
    }
}

proof fn lemma_sorted_same_elements<T>(a: Seq<T>, b: Seq<T>, lt: spec_fn(T, T) -> bool)
    requires
        forall|x: T, y: T, z: T| #[trigger] lt(x, y) && #[trigger] lt(y, z) ==> lt(x, z),
        forall|x: T| !#[trigger] lt(x, x),
        forall|i: int, j: int| 0 <= i < j < a.len() ==> #[trigger] lt(a[i], a[j]),
        forall|i: int, j: int| 0 <= i < j < b.len() ==> #[trigger] lt(b[i], b[j]),
        forall|x: T| #![trigger a.contains(x)] #![trigger b.contains(x)] a.contains(x) <==> b.contains(x),
    ensures
        a == b,
    decreases a.len(),
{
    if a.len() == 0 {
        if b.len() > 0 {
            assert(b.contains(b[0]));
            assert(a.contains(b[0]));
        }
        assert(a =~= b);
    } else {
        assert(a.contains(a[0]));
        let j = choose|j: int| 0 <= j < b.len() && b[j] == a[0];
        assert(b.contains(b[0]));
        assert(a.contains(b[0]));
        let i = choose|i: int| 0 <= i < a.len() && a[i] == b[0];
        if j > 0 {
            assert(lt(b[0], b[j]));
            if i > 0 {
                assert(lt(a[0], a[i]));
                assert(lt(a[0], a[0]));
            } else {
                assert(lt(a[0], a[0]));
            }
        }
        assert(a[0] == b[0]);
        let ta = a.drop_first();
        let tb = b.drop_first();
        assert forall|x: T| #![trigger ta.contains(x)] #![trigger tb.contains(x)] ta.contains(x) <==> tb.contains(x) by {
            if ta.contains(x) {
                let k = choose|k: int| 0 <= k < ta.len() && ta[k] == x;
                assert(a[k + 1] == x);
                assert(lt(a[0], a[k + 1]));
                assert(a.contains(x));
                let m = choose|m: int| 0 <= m < b.len() && b[m] == x;
                if m == 0 {
                    assert(lt(x, x));
                }
                assert(tb[m - 1] == x);
            }
            if tb.contains(x) {
                let k = choose|k: int| 0 <= k < tb.len() && tb[k] == x;
                assert(b[k + 1] == x);
                assert(lt(b[0], b[k + 1]));
                assert(b.contains(x));
                let m = choose|m: int| 0 <= m < a.len() && a[m] == x;
                if m == 0 {
                    assert(lt(x, x));
                }
                assert(ta[m - 1] == x);
            }
        }
        assert forall|i: int, j: int| 0 <= i < j < ta.len() implies #[trigger] lt(ta[i], ta[j]) by {
            assert(lt(a[i + 1], a[j + 1]));
        }
        assert forall|i: int, j: int| 0 <= i < j < tb.len() implies #[trigger] lt(tb[i], tb[j]) by {
            assert(lt(b[i + 1], b[j + 1]));
        }
        lemma_sorted_same_elements(ta, tb, lt);
        assert(a =~= seq![a[0]] + ta);
        assert(b =~= seq![b[0]] + tb);
    }
}

/// Law: the grouping is determined by the keys: two groupings of the
/// same claims have the same groups, in the same order, with the same
/// members. So promotion produces the same dedup keys in the same order
/// on every run.
pub proof fn law_grouping_is_determined_by_keys(keys: Seq<GroupKey>, g1: Seq<ConsensusGroup>, g2: Seq<ConsensusGroup>)
    requires
        is_consensus_grouping(keys, g1),
        is_consensus_grouping(keys, g2),
    ensures
        g1.len() == g2.len(),
        forall|i: int|
            0 <= i < g1.len() ==> {
                &&& (#[trigger] g1[i]).key.content_hash@ == g2[i].key.content_hash@
                &&& g1[i].key.subject_hash@ == g2[i].key.subject_hash@
                &&& g1[i].members@ == g2[i].members@
            },
{
    let klt = |x: (Seq<char>, Seq<char>), y: (Seq<char>, Seq<char>)| key_lt(x, y);
    let k1 = g1.map_values(|g: ConsensusGroup| key_of(g.key));
    let k2 = g2.map_values(|g: ConsensusGroup| key_of(g.key));
    assert forall|x: (Seq<char>, Seq<char>), y: (Seq<char>, Seq<char>), z: (Seq<char>, Seq<char>)|
        #[trigger] klt(x, y) && #[trigger] klt(y, z) implies klt(x, z) by {
        lemma_key_lt_transitive(x, y, z);
    }
    assert forall|x: (Seq<char>, Seq<char>)| !#[trigger] klt(x, x) by {
        lemma_key_lt_irreflexive(x);
    }
    assert forall|i: int, j: int| 0 <= i < j < k1.len() implies #[trigger] klt(k1[i], k1[j]) by {
        assert(key_lt(key_of(g1[i].key), key_of(g1[j].key)));
    }
    assert forall|i: int, j: int| 0 <= i < j < k2.len() implies #[trigger] klt(k2[i], k2[j]) by {
        assert(key_lt(key_of(g2[i].key), key_of(g2[j].key)));
    }
    // A key names a group in one grouping exactly when some claim has it,
    // so exactly when it names a group in the other.
    assert forall|x: (Seq<char>, Seq<char>)| #![trigger k1.contains(x)] #![trigger k2.contains(x)] k1.contains(x) <==> k2.contains(x) by {
        if k1.contains(x) {
            let i = choose|i: int| 0 <= i < k1.len() && k1[i] == x;
            let m = g1[i].members@[0];
            assert(g1[i].members@.len() > 0);
            assert(key_of(keys[m as int]) == x);
            assert(is_grouped(g2, m as int));
            let (h, b) = choose|h: int, b: int| 0 <= h < g2.len() && 0 <= b < g2[h].members@.len() && #[trigger] g2[h].members@[b] == m;
            assert(key_of(keys[g2[h].members@[b] as int]) == key_of(g2[h].key));
            assert(k2[h] == x);
        }
        if k2.contains(x) {
            let i = choose|i: int| 0 <= i < k2.len() && k2[i] == x;
            let m = g2[i].members@[0];
            assert(g2[i].members@.len() > 0);
            assert(key_of(keys[m as int]) == x);
            assert(is_grouped(g1, m as int));
            let (h, b) = choose|h: int, b: int| 0 <= h < g1.len() && 0 <= b < g1[h].members@.len() && #[trigger] g1[h].members@[b] == m;
            assert(key_of(keys[g1[h].members@[b] as int]) == key_of(g1[h].key));
            assert(k1[h] == x);
        }
    }
    lemma_sorted_same_elements(k1, k2, klt);
    assert(k1.len() == g1.len() && k2.len() == g2.len());
    let ilt = |x: usize, y: usize| x < y;
    assert forall|i: int| 0 <= i < g1.len() implies {
        &&& (#[trigger] g1[i]).key.content_hash@ == g2[i].key.content_hash@
        &&& g1[i].key.subject_hash@ == g2[i].key.subject_hash@
        &&& g1[i].members@ == g2[i].members@
    } by {
        assert(k1[i] == k2[i]);
        let m1 = g1[i].members@;
        let m2 = g2[i].members@;
        assert forall|x: usize| #![trigger m1.contains(x)] #![trigger m2.contains(x)] m1.contains(x) <==> m2.contains(x) by {
            if m1.contains(x) {
                let a = choose|a: int| 0 <= a < m1.len() && m1[a] == x;
                assert(g1[i].members@[a] == x);
                assert(key_of(keys[x as int]) == key_of(g1[i].key));
                assert(is_grouped(g2, x as int));
                let (h, b) = choose|h: int, b: int| 0 <= h < g2.len() && 0 <= b < g2[h].members@.len() && #[trigger] g2[h].members@[b] == x;
                assert(key_of(keys[g2[h].members@[b] as int]) == key_of(g2[h].key));
                if h != i {
                    if h < i {
                        assert(key_lt(key_of(g2[h].key), key_of(g2[i].key)));
                    } else {
                        assert(key_lt(key_of(g2[i].key), key_of(g2[h].key)));
                    }
                    lemma_key_lt_irreflexive(key_of(g2[i].key));
                }
                assert(m2[b] == x);
            }
            if m2.contains(x) {
                let a = choose|a: int| 0 <= a < m2.len() && m2[a] == x;
                assert(g2[i].members@[a] == x);
                assert(key_of(keys[x as int]) == key_of(g2[i].key));
                assert(is_grouped(g1, x as int));
                let (h, b) = choose|h: int, b: int| 0 <= h < g1.len() && 0 <= b < g1[h].members@.len() && #[trigger] g1[h].members@[b] == x;
                assert(key_of(keys[g1[h].members@[b] as int]) == key_of(g1[h].key));
                if h != i {
                    if h < i {
                        assert(key_lt(key_of(g1[h].key), key_of(g1[i].key)));
                    } else {
                        assert(key_lt(key_of(g1[i].key), key_of(g1[h].key)));
                    }
                    lemma_key_lt_irreflexive(key_of(g1[i].key));
                }
                assert(m1[b] == x);
            }
        }
        assert forall|a: int, b: int| 0 <= a < b < m1.len() implies #[trigger] ilt(m1[a], m1[b]) by {
            assert(g1[i].members@[a] < g1[i].members@[b]);
        }
        assert forall|a: int, b: int| 0 <= a < b < m2.len() implies #[trigger] ilt(m2[a], m2[b]) by {
            assert(g2[i].members@[a] < g2[i].members@[b]);
        }
        lemma_sorted_same_elements(m1, m2, ilt);
    }
}

/// What consensus promotion reads of one claim.
#[derive(Debug, Clone, PartialEq, Eq)]
pub struct ClaimFacts {
    /// The claim's grouping key.
    pub key: GroupKey,
    /// Who made the claim.
    pub claimant: String,
    /// The consensus quorum configured for the claimant, if any.
    pub quorum_override: Option<u32>,
}

/// A group that meets its quorum, ready to promote.
#[derive(Debug, Clone, PartialEq, Eq)]
pub struct PromotionCandidate {
    /// `promotion:{content_hash}:{subject_hash}`
    pub dedup_key: String,
    /// The supporting claims, by index, in increasing order.
    pub supports: Vec<usize>,
    /// The claim whose envelope shapes the promoted record: the group's
    /// first member.
    pub representative: usize,
}

/// The claims' keys.
pub open spec fn claim_keys(claims: Seq<ClaimFacts>) -> Seq<GroupKey> {
    claims.map_values(|c: ClaimFacts| c.key)
}

/// The claimants of a group's members.
pub open spec fn member_claimants(members: Seq<usize>, claims: Seq<ClaimFacts>) -> Seq<Seq<char>> {
    members.map_values(|m: usize| claims[m as int].claimant@)
}

/// The quorum overrides configured for a group's members, in member order.
pub open spec fn member_overrides(members: Seq<usize>, claims: Seq<ClaimFacts>) -> Seq<u32>
    decreases members.len(),
{
    if members.len() == 0 {
        Seq::empty()
    } else {
        let rest = member_overrides(members.drop_last(), claims);
        match claims[members.last() as int].quorum_override {
            Some(q) => rest.push(q),
            None => rest,
        }
    }
}

/// A group promotes when its distinct claimants reach its effective quorum.
pub open spec fn group_promotes(members: Seq<usize>, claims: Seq<ClaimFacts>, min: u32) -> bool {
    distinct_count(member_claimants(members, claims)) >= effective_quorum(member_overrides(members, claims), min)
}

/// Indices of the groups among the first `n` that promote.
pub open spec fn promoting_groups(groups: Seq<ConsensusGroup>, claims: Seq<ClaimFacts>, min: u32, n: int) -> Seq<int>
    decreases n,
{
    if n <= 0 {
        Seq::empty()
    } else if group_promotes(groups[n - 1].members@, claims, min) {
        promoting_groups(groups, claims, min, n - 1).push(n - 1)
    } else {
        promoting_groups(groups, claims, min, n - 1)
    }
}

/// The candidate a promoting group yields.
pub open spec fn candidate_matches(c: PromotionCandidate, g: ConsensusGroup) -> bool {
    &&& c.dedup_key@ == spec_promotion_dedup_key(g.key.content_hash@, g.key.subject_hash@)
    &&& c.supports@ == g.members@
    &&& c.representative == g.members@[0]
}

/// Consensus selection: the claims grouped by key, and the groups that
/// promote.
#[derive(Debug, Clone, PartialEq, Eq)]
pub struct ConsensusSelection {
    pub groups: Vec<ConsensusGroup>,
    pub candidates: Vec<PromotionCandidate>,
}

fn copy_usizes(v: &Vec<usize>) -> (r: Vec<usize>)
    ensures
        r@ == v@,
{
    let mut out: Vec<usize> = Vec::new();
    let mut i: usize = 0;
    while i < v.len()
        invariant
            i <= v.len(),
            out@ == v@.take(i as int),
        decreases v.len() - i,
    {
        out.push(v[i]);
        assert(v@.take(i + 1) =~= v@.take(i as int).push(v@[i as int]));
        i += 1;
    }
    assert(v@.take(v.len() as int) =~= v@);
    out
}

fn group_claim_facts(members: &Vec<usize>, claims: &Vec<ClaimFacts>) -> (r: (Vec<String>, Vec<u32>))
    requires
        forall|a: int| 0 <= a < members@.len() ==> #[trigger] members@[a] < claims@.len(),
    ensures
        r.0.deep_view() == member_claimants(members@, claims@),
        r.1@ == member_overrides(members@, claims@),
{
    let mut cs: Vec<String> = Vec::new();
    let mut qs: Vec<u32> = Vec::new();
    let mut i: usize = 0;
    assert(members@.take(0) =~= Seq::<usize>::empty());
    while i < members.len()
        invariant
            i <= members.len(),
            forall|a: int| 0 <= a < members@.len() ==> #[trigger] members@[a] < claims@.len(),
            cs.deep_view() == member_claimants(members@.take(i as int), claims@),
            qs@ == member_overrides(members@.take(i as int), claims@),
        decreases members.len() - i,
    {
        let m = members[i];
        let c = &claims[m];
        let ghost t = members@.take(i + 1);
        assert(t.drop_last() =~= members@.take(i as int));
        let ghost cs_before = cs.deep_view();
        let name = c.claimant.clone();
        cs.push(name);
        proof {
            assert(cs.deep_view() =~= cs_before.push(name@));
            assert(member_claimants(t, claims@) =~= member_claimants(members@.take(i as int), claims@).push(
                claims@[m as int].claimant@,
            ));
        }
        match c.quorum_override {
            Some(q) => qs.push(q),
            None => {},
        }
        assert(cs.deep_view() =~= member_claimants(t, claims@));
        i += 1;
    }
    assert(members@.take(members.len() as int) =~= members@);
    (cs, qs)
}

/// Group the claims by key and pick the groups whose distinct claimants
/// reach the quorum: the configured minimum, lowered to the smallest
/// override configured for any member.
pub fn select_consensus_promotions(claims: &Vec<ClaimFacts>, min_independent_claimants: u32) -> (r: ConsensusSelection)
    ensures
        is_consensus_grouping(claim_keys(claims@), r.groups@),
        r.candidates@.len() == promoting_groups(r.groups@, claims@, min_independent_claimants, r.groups@.len() as int).len(),
        forall|k: int| 0 <= k < r.candidates@.len() ==> candidate_matches(
            #[trigger] r.candidates@[k],
            r.groups@[promoting_groups(r.groups@, claims@, min_independent_claimants, r.groups@.len() as int)[k]],
        ),
{
    let mut keys: Vec<GroupKey> = Vec::new();
    let mut i: usize = 0;
    while i < claims.len()
        invariant
            i <= claims.len(),
            keys@ =~= claim_keys(claims@).take(i as int),
        decreases claims.len() - i,
    {
        let k = GroupKey {
            content_hash: claims[i].key.content_hash.clone(),
            subject_hash: claims[i].key.subject_hash.clone(),
        };
        keys.push(k);
        proof {
            assert(claim_keys(claims@)[i as int] == claims@[i as int].key);
            assert(k == claims@[i as int].key);
        }
        i += 1;
    }
    assert(keys@ =~= claim_keys(claims@));
    let groups = group_assertions_for_consensus(&keys);
    let ghost gs = groups@;
    let mut candidates: Vec<PromotionCandidate> = Vec::new();
    let mut g: usize = 0;
    while g < groups.len()
        invariant
            g <= groups.len(),
            gs == groups@,
            is_consensus_grouping(claim_keys(claims@), gs),
            candidates@.len() == promoting_groups(gs, claims@, min_independent_claimants, g as int).len(),
            forall|k: int| 0 <= k < candidates@.len() ==> candidate_matches(
                #[trigger] candidates@[k],
                gs[promoting_groups(gs, claims@, min_independent_claimants, g as int)[k]],
            ),
        decreases groups.len() - g,
    {
        let grp = &groups[g];
        proof {
            assert forall|a: int| 0 <= a < grp.members@.len() implies #[trigger] grp.members@[a] < claims@.len() by {
                assert(gs[g as int].members@[a] < claim_keys(claims@).len());
            }
        }
        let (cs, qs) = group_claim_facts(&grp.members, claims);
        let promotes = meets_quorum(&cs, qs.as_slice(), min_independent_claimants);
        let ghost before = promoting_groups(gs, claims@, min_independent_claimants, g as int);
        if promotes {
            assert(grp.members@.len() > 0);
            let cand = PromotionCandidate {
                dedup_key: promotion_dedup_key(grp.key.content_hash.as_str(), grp.key.subject_hash.as_str()),
                supports: copy_usizes(&grp.members),
                representative: grp.members[0],
            };
            candidates.push(cand);
            proof {
                let after = promoting_groups(gs, claims@, min_independent_claimants, g + 1);
                assert(after == before.push(g as int));
                assert forall|k: int| 0 <= k < candidates@.len() implies candidate_matches(
                    #[trigger] candidates@[k],
                    gs[after[k]],
                ) by {
                    if k < before.len() {
                        assert(after[k] == before[k]);
                    }
                }
            }
        } else {
            proof {
                assert(promoting_groups(gs, claims@, min_independent_claimants, g + 1) == before);
            }
        }
        g += 1;
    }
    ConsensusSelection { groups, candidates }
}

// ---------------------------------------------------------------------------
// Store outcomes and the report
// ---------------------------------------------------------------------------

/// The shape of a promoted record, which decides the table it lands in
/// and the counter it bumps.
#[derive(Debug, Clone, Copy, PartialEq, Eq)]
pub enum PromotedShape {
    Observation,
    Event,
    Relation,
    EntityAttribute,
}

/// What became of one attempted promotion.
#[derive(Debug, Clone, Copy, PartialEq, Eq)]
pub enum InsertResult {
    Inserted,
    SkippedDuplicate,
    FailedOther,
}

/// Whether the store's existence check for a dedup key found a promoted
/// record. A check that failed counts as "not found", so the insert is
/// attempted.
pub fn dedup_already_promoted(check: &Result<bool, String>) -> (r: bool)
    ensures
        r == (*check == Ok::<bool, String>(true)),
{
    match check {
        Ok(found) => *found,
        Err(_) => false,
    }
}

/// `duplicate`
pub open spec fn word_duplicate() -> Seq<u8> {
    seq![100u8, 117u8, 112u8, 108u8, 105u8, 99u8, 97u8, 116u8, 101u8]
}

/// `unique`
pub open spec fn word_unique() -> Seq<u8> {
    seq![117u8, 110u8, 105u8, 113u8, 117u8, 101u8]
}

/// `dedup_key`
pub open spec fn word_dedup_key() -> Seq<u8> {
    seq![100u8, 101u8, 100u8, 117u8, 112u8, 95u8, 107u8, 101u8, 121u8]
}

/// `word` occurs in `msg` once ASCII letters are lower-cased.
pub open spec fn mentions(msg: Seq<u8>, word: Seq<u8>) -> bool {
    exists|j: int| occurs_at(lower_bytes(msg), j, word)
}

/// An insert error whose message mentions duplication counts as "already
/// promoted"; any other is a real failure.
pub open spec fn spec_classify_insert_error(message: Seq<char>) -> InsertResult {
    let b = encode_utf8(message);
    if mentions(b, word_duplicate()) || mentions(b, word_unique()) || mentions(b, word_dedup_key()) {
        InsertResult::SkippedDuplicate
    } else {
        InsertResult::FailedOther
    }
}

fn lowered(b: &[u8]) -> (r: Vec<u8>)
    ensures
        r@ == lower_bytes(b@),
{
    let mut out: Vec<u8> = Vec::new();
    let mut i: usize = 0;
    while i < b.len()
        invariant
            i <= b.len(),
            out@ == lower_bytes(b@).take(i as int),
        decreases b.len() - i,
    {
        out.push(lower_u8(b[i]));
        assert(lower_bytes(b@).take(i + 1) =~= lower_bytes(b@).take(i as int).push(lower_bytes(b@)[i as int]));
        i += 1;
    }
    assert(lower_bytes(b@).take(b.len() as int) =~= lower_bytes(b@));
    out
}

fn mentions_exec(lower: &[u8], word: &[u8]) -> (r: bool)
    requires
        word@.len() > 0,
    ensures
        r == exists|j: int| occurs_at(lower@, j, word@),
{
    let found = find_subseq(lower, word);
    proof {
        lemma_find_from(lower@, word@, 0);
        if word@.len() > lower@.len() {
            assert forall|j: int| !occurs_at(lower@, j, word@) by {}
        }
        if let Some(j) = found {
            assert(occurs_at(lower@, j as int, word@));
        } else {
            assert forall|j: int| !occurs_at(lower@, j, word@) by {
                if 0 <= j {
                }
            }
        }
    }
    found.is_some()
}

/// Classify an insert error by its message: one that mentions
/// `duplicate`, `unique` or `dedup_key`, in any ASCII case, means the
/// record was promoted on an earlier run.
pub fn classify_insert_error(message: &str) -> (r: InsertResult)
    ensures
        r == spec_classify_insert_error(message@),
{
    let low = lowered(message.as_bytes());
    let d: [u8; 9] = [100u8, 117u8, 112u8, 108u8, 105u8, 99u8, 97u8, 116u8, 101u8];
    let u: [u8; 6] = [117u8, 110u8, 105u8, 113u8, 117u8, 101u8];
    let k: [u8; 9] = [100u8, 101u8, 100u8, 117u8, 112u8, 95u8, 107u8, 101u8, 121u8];
    assert(d@ =~= word_duplicate());
    assert(u@ =~= word_unique());
    assert(k@ =~= word_dedup_key());
    if mentions_exec(low.as_slice(), &d) || mentions_exec(low.as_slice(), &u) || mentions_exec(low.as_slice(), &k) {
        InsertResult::SkippedDuplicate
    } else {
        InsertResult::FailedOther
    }
}

/// What an insert's result means for the report.
pub open spec fn spec_insert_outcome(result: Result<(), String>) -> InsertResult {
    match result {
        Ok(()) => InsertResult::Inserted,
        Err(message) => spec_classify_insert_error(message@),
    }
}

/// The outcome of an insert attempt: inserted, or its error classified.
pub fn insert_outcome(result: &Result<(), String>) -> (r: InsertResult)
    ensures
        r == spec_insert_outcome(*result),
{
    match result {
        Ok(()) => InsertResult::Inserted,
        Err(message) => classify_insert_error(message.as_str()),
    }
}

/// The per-shape counter of records emitted.
pub open spec fn emitted(r: PromoteReport, shape: PromotedShape) -> u32 {
    match shape {
        PromotedShape::Observation => r.observations_emitted,
        PromotedShape::Event => r.events_emitted,
        PromotedShape::Relation => r.relations_emitted,
        PromotedShape::EntityAttribute => r.entity_attributes_emitted,
    }
}

/// `r` with one more record of `shape` emitted.
pub open spec fn count_emitted(r: PromoteReport, shape: PromotedShape) -> PromoteReport {
    match shape {
        PromotedShape::Observation => PromoteReport { observations_emitted: (r.observations_emitted + 1) as u32, ..r },
        PromotedShape::Event => PromoteReport { events_emitted: (r.events_emitted + 1) as u32, ..r },
        PromotedShape::Relation => PromoteReport { relations_emitted: (r.relations_emitted + 1) as u32, ..r },
        PromotedShape::EntityAttribute => PromoteReport {
            entity_attributes_emitted: (r.entity_attributes_emitted + 1) as u32,
            ..r
        },
    }
}

/// The report after one outcome. A promotion is counted under
/// `authoritative_promoted` on the authoritative pathway and under
/// `groups_promoted` on the consensus pathway.
pub open spec fn spec_record_outcome(
    r: PromoteReport,
    shape: PromotedShape,
    outcome: InsertResult,
    authoritative: bool,
) -> PromoteReport {
    match outcome {
        InsertResult::Inserted => {
            let e = count_emitted(r, shape);
            if authoritative {
                PromoteReport { authoritative_promoted: (r.authoritative_promoted + 1) as u32, ..e }
            } else {
                PromoteReport { groups_promoted: (r.groups_promoted + 1) as u32, ..e }
            }
        },
        InsertResult::SkippedDuplicate => PromoteReport {
            skipped_already_promoted: (r.skipped_already_promoted + 1) as u32,
            ..r
        },
        InsertResult::FailedOther => PromoteReport { insert_failures: (r.insert_failures + 1) as u32, ..r },
    }
}

/// The counters an outcome bumps are below `u32::MAX`.
pub open spec fn can_record(r: PromoteReport, shape: PromotedShape, outcome: InsertResult, authoritative: bool) -> bool {
    match outcome {
        InsertResult::Inserted => emitted(r, shape) < u32::MAX && (if authoritative {
            r.authoritative_promoted < u32::MAX
        } else {
            r.groups_promoted < u32::MAX
        }),
        InsertResult::SkippedDuplicate => r.skipped_already_promoted < u32::MAX,
        InsertResult::FailedOther => r.insert_failures < u32::MAX,
    }
}

/// Records emitted, over all shapes.
pub open spec fn emitted_total(r: PromoteReport) -> int {
    r.observations_emitted + r.events_emitted + r.relations_emitted + r.entity_attributes_emitted
}

/// Every emitted record is one promotion, consensus or authoritative.
pub open spec fn report_balanced(r: PromoteReport) -> bool {
    emitted_total(r) == r.groups_promoted + r.authoritative_promoted
}

/// Attempts whose outcome the report holds.
pub open spec fn settled(r: PromoteReport) -> int {
    r.groups_promoted + r.authoritative_promoted + r.skipped_already_promoted + r.insert_failures
}

fn bump_emitted(report: &mut PromoteReport, shape: PromotedShape)
    requires
        emitted(*old(report), shape) < u32::MAX,
    ensures
        *final(report) == count_emitted(*old(report), shape),
{
    match shape {
        PromotedShape::Observation => report.observations_emitted += 1,
        PromotedShape::Event => report.events_emitted += 1,
        PromotedShape::Relation => report.relations_emitted += 1,
        PromotedShape::EntityAttribute => report.entity_attributes_emitted += 1,
    }
}

/// Count a consensus group's outcome: an insert bumps its shape's counter
/// and `groups_promoted`; a duplicate bumps `skipped_already_promoted`; a
/// failure bumps `insert_failures`. Each outcome settles exactly one
/// attempt and keeps emitted records matched to promotions.
pub fn record_consensus_outcome(report: &mut PromoteReport, shape: PromotedShape, outcome: InsertResult)
    requires
        can_record(*old(report), shape, outcome, false),
    ensures
        *final(report) == spec_record_outcome(*old(report), shape, outcome, false),
        settled(*final(report)) == settled(*old(report)) + 1,
        report_balanced(*old(report)) ==> report_balanced(*final(report)),
{
    match outcome {
        InsertResult::Inserted => {
            bump_emitted(report, shape);
            report.groups_promoted += 1;
        },
        InsertResult::SkippedDuplicate => report.skipped_already_promoted += 1,
        InsertResult::FailedOther => report.insert_failures += 1,
    }
}

/// Count an authoritative claim's outcome, as [`record_consensus_outcome`]
/// does but under `authoritative_promoted`. Returns whether the claim goes
/// on to the consensus pass: only after a failed insert, so that a later
/// quorum can still promote it.
pub fn record_authoritative_outcome(report: &mut PromoteReport, shape: PromotedShape, outcome: InsertResult) -> (retry: bool)
    requires
        can_record(*old(report), shape, outcome, true),
    ensures
        *final(report) == spec_record_outcome(*old(report), shape, outcome, true),
        retry == (outcome == InsertResult::FailedOther),
        settled(*final(report)) == settled(*old(report)) + 1,
        report_balanced(*old(report)) ==> report_balanced(*final(report)),
{
    match outcome {
        InsertResult::Inserted => {
            bump_emitted(report, shape);
            report.authoritative_promoted += 1;
            false
        },
        InsertResult::SkippedDuplicate => {
            report.skipped_already_promoted += 1;
            false
        },
        InsertResult::FailedOther => {
            report.insert_failures += 1;
            true
        },
    }
}

/// Law: folding a balanced consensus report into a balanced
/// authoritative report keeps it balanced, as long as no counter
/// saturates.
pub proof fn law_merge_keeps_balance(report: PromoteReport, consensus: PromoteReport)
    requires
        report_balanced(report),
        report_balanced(consensus),
        consensus.authoritative_promoted == 0,
        report.groups_promoted + consensus.groups_promoted <= u32::MAX,
        report.observations_emitted + consensus.observations_emitted <= u32::MAX,
        report.events_emitted + consensus.events_emitted <= u32::MAX,
        report.relations_emitted + consensus.relations_emitted <= u32::MAX,
        report.entity_attributes_emitted + consensus.entity_attributes_emitted <= u32::MAX,
    ensures
        report_balanced(spec_merge(report, consensus)),
{
}

} // verus!
