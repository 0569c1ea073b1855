use pipeline::normalize::merge_topics;
use pipeline::promote::{
    hex128, meets_quorum, merge_consensus_into, promotion_dedup_key, PromoteConfig, PromoteReport,
};
use pipeline::reextract::{
    parse_recipe_id_from_source_id, record_document, route_document, DocumentOutcome, ReextractReport,
};
use pipeline::recipe_apply::recipe_source_id;
use pipeline::recipes::{ExtractionSpec, FetchRecipe};
use pipeline::relation_synth::{
    build_exemplar_relation, dedup_key_for_triple, exemplar_work, outcome_of_existence_check, outcome_of_insert, record_outcome,
    ExemplarWork, MaterializationReport, MaterializeOutcome,
};
use pipeline::relation_vocab::{filter_drafts_against_plan, PredicateFilterReport, MAX_PREDICATE_LIST};
use pipeline::research::{
    RecordExpectations, RelationKindExpectation, RelationTripleExemplar, ResearchPlan,
};

const UUID: &str = "0190f2c4-8a6b-7c3d-9e1f-2a3b4c5d6e7f";

fn plan_with_kinds(kinds: &[(&str, &[(&str, &str)])]) -> ResearchPlan {
    ResearchPlan {
        id: UUID.into(),
        topic: "test".into(),
        interpretation: "test".into(),
        topic_tags: vec![],
        geographic_scope: vec![],
        historical_window_days: 30,
        expectations: RecordExpectations {
            observation_metrics: vec![],
            event_types: vec![],
            entity_kinds: vec![],
            relation_kinds: kinds
                .iter()
                .map(|(k, ts)| RelationKindExpectation {
                    kind: k.to_string(),
                    exemplar_triples: ts
                        .iter()
                        .map(|(f, t)| RelationTripleExemplar { from: f.to_string(), to: t.to_string() })
                        .collect(),
                })
                .collect(),
            document_sources: vec![],
        },
    }
}

fn sample_plan_with_triples(kinds: &[(&str, &[(&str, &str)])]) -> ResearchPlan {
    plan_with_kinds(kinds)
}

fn mk_plan_with(kinds: &[&str]) -> ResearchPlan {
    let v: Vec<(&str, &[(&str, &str)])> = kinds.iter().map(|k| (*k, &[][..])).collect();
    plan_with_kinds(&v)
}

fn mk_draft(kind: &str) -> String {
    kind.to_string()
}

#[test]
fn hex128_is_exactly_32_lowercase_hex_chars() {
    let h = hex128(b"hello");
    assert_eq!(h.len(), 32, "hex128 must render exactly 32 chars");
    assert!(
        h.chars().all(|c| c.is_ascii_hexdigit() && !c.is_ascii_uppercase()),
        "hex128 must render lowercase hex digits only, got `{h}`"
    );
    assert_eq!(h, "2cf24dba5fb0a30e26e83b2ac5b9e29e");
}

#[test]
fn hex128_different_inputs_produce_different_outputs() {
    assert_ne!(hex128(b"hello"), hex128(b"hello world"));
    assert_ne!(hex128(b"hello"), hex128(b"Hello"));
    assert_eq!(hex128(b""), "e3b0c44298fc1c149afbf4c8996fb924");
}

#[test]
fn quorum_not_met_when_one_claimant_repeats() {
    let claimants: Vec<String> = vec!["agency:reuters".into(), "agency:reuters".into(), "agency:reuters".into()];
    assert!(!meets_quorum(&claimants, &[], PromoteConfig::default().min_independent_claimants));
}

#[test]
fn quorum_met_with_three_distinct_claimants() {
    let claimants: Vec<String> = vec!["agency:reuters".into(), "agency:bloomberg".into(), "agency:argus".into()];
    assert!(meets_quorum(&claimants, &[], PromoteConfig::default().min_independent_claimants));
}

#[test]
fn quorum_override_lowers_the_bar_and_the_smallest_wins() {
    let claimants: Vec<String> = vec!["usgs".into(), "noaa".into(), "usgs".into()];
    assert!(!meets_quorum(&claimants, &[], 3));
    assert!(meets_quorum(&claimants, &[2], 3));
    assert!(meets_quorum(&claimants, &[5, 1], 3));
    assert!(!meets_quorum(&claimants, &[5], 3));
}

#[test]
fn promote_config_default_quorum_is_three() {
    assert_eq!(PromoteConfig::default().min_independent_claimants, 3);
}

#[test]
fn merge_consensus_into_adds_consensus_counters_saturating() {
    let mut auth = PromoteReport::default();
    auth.assertions_considered = 10;
    auth.observations_emitted = 2;
    auth.authoritative_promoted = 2;
    auth.insert_failures = u32::MAX - 1;
    let mut consensus = PromoteReport::default();
    consensus.assertions_considered = 8;
    consensus.groups_promoted = 3;
    consensus.observations_emitted = 1;
    consensus.events_emitted = 2;
    consensus.insert_failures = 5;
    consensus.authoritative_promoted = 7;
    merge_consensus_into(&mut auth, consensus);
    assert_eq!(auth.assertions_considered, 10);
    assert_eq!(auth.groups_promoted, 3);
    assert_eq!(auth.observations_emitted, 3);
    assert_eq!(auth.events_emitted, 2);
    assert_eq!(auth.insert_failures, u32::MAX);
    assert_eq!(auth.authoritative_promoted, 2);
}

#[test]
fn merging_an_empty_consensus_report_changes_nothing() {
    let mut r = PromoteReport::default();
    r.groups_promoted = 4;
    r.relations_emitted = 1;
    let before = r.clone();
    merge_consensus_into(&mut r, PromoteReport::default());
    assert_eq!(r, before);
}

#[test]
fn promotion_dedup_key_shape() {
    assert_eq!(promotion_dedup_key("aa", "bb"), "promotion:aa:bb");
}

#[test]
fn reextract_report_default_is_zeroed() {
    let r = ReextractReport::default();
    assert_eq!(r.documents_considered, 0);
    assert_eq!(r.documents_unrouted, 0);
    assert_eq!(r.assertions_extracted, 0);
    assert_eq!(r.assertions_persisted, 0);
    assert_eq!(r.assertion_insert_failures, 0);
    assert_eq!(r.llm_call_errors, 0);
}

#[test]
fn parse_recipe_id_canonical_shape() {
    let s = format!("gdelt#recipe:{UUID}@v3");
    assert_eq!(parse_recipe_id_from_source_id(&s), Some(UUID.to_string()));
}

#[test]
fn parse_recipe_id_higher_version_count() {
    let s = format!("usgs_mcs#recipe:{UUID}@v42");
    assert_eq!(parse_recipe_id_from_source_id(&s), Some(UUID.to_string()));
}

#[test]
fn parse_recipe_id_rejects_plan_keyed_shape() {
    let s = format!("plan:{UUID}#entity:foo");
    assert_eq!(parse_recipe_id_from_source_id(&s), None);
}

#[test]
fn parse_recipe_id_rejects_unmarked_uuid() {
    assert_eq!(parse_recipe_id_from_source_id(UUID), None);
}

#[test]
fn parse_recipe_id_rejects_malformed_uuid() {
    let s = "gdelt#recipe:not-a-uuid@v1";
    assert_eq!(parse_recipe_id_from_source_id(s), None);
}

#[test]
fn parse_recipe_id_rejects_almost_marker() {
    let s = format!("gdelt#recipe-{UUID}@v1");
    assert_eq!(parse_recipe_id_from_source_id(&s), None);
}

#[test]
fn parse_recipe_id_without_version_suffix_and_upper_case() {
    let s = format!("gdelt#recipe:{}", UUID.to_uppercase());
    assert_eq!(parse_recipe_id_from_source_id(&s), Some(UUID.to_string()));
}

#[test]
fn documents_route_to_the_recipe_their_source_id_names() {
    let other = "0190f2c4-8a6b-7c3d-9e1f-000000000000".to_string();
    let ids = vec![other.clone(), UUID.to_string(), other.clone(), UUID.to_string()];
    let s = format!("gdelt#recipe:{UUID}@v3");
    assert_eq!(route_document(&s, &ids), Some(3));
    assert_eq!(route_document(&s, &vec![other.clone()]), None);
    assert_eq!(route_document("gdelt#entity:foo", &ids), None);
    assert_eq!(route_document(&s, &Vec::new()), None);
}

fn recipe_with(source_id: &str, id: &str, version: u32) -> FetchRecipe {
    FetchRecipe {
        id: id.to_string(),
        dedup_key: None,
        plan_id: "0190f2c4-8a6b-7c3d-9e1f-111111111111".to_string(),
        source_id: source_id.to_string(),
        source_url: "https://example.org/data.json".to_string(),
        extraction: ExtractionSpec::JsonPath { path: "$.price".to_string() },
        iterator: None,
        produces: Vec::new(),
        authored_at: 0,
        authored_by: "operator".to_string(),
        version,
        static_payload: None,
        prior_recipe_id: None,
        reauthor_reason: None,
    }
}

#[test]
fn recipe_source_ids_route_back_to_their_recipe() {
    let r = recipe_with("usgs_mcs", UUID, 42);
    let sid = recipe_source_id(&r);
    assert_eq!(sid, format!("usgs_mcs#recipe:{UUID}@v42"));
    assert_eq!(parse_recipe_id_from_source_id(&sid), Some(UUID.to_string()));
    let ids = vec![UUID.to_string()];
    assert_eq!(route_document(&sid, &ids), Some(0));
    let r0 = recipe_with("gdelt", UUID, 0);
    assert_eq!(recipe_source_id(&r0), format!("gdelt#recipe:{UUID}@v0"));
}

#[test]
fn documents_are_tallied_by_outcome() {
    let mut r = ReextractReport::default();
    record_document(&mut r, &DocumentOutcome::Unrouted);
    record_document(
        &mut r,
        &DocumentOutcome::Extracted { extracted: 5, persisted: 4, insert_failures: 1, call_failed: false },
    );
    record_document(
        &mut r,
        &DocumentOutcome::Extracted { extracted: 0, persisted: 0, insert_failures: 0, call_failed: true },
    );
    assert_eq!(
        r,
        ReextractReport {
            documents_considered: 3,
            documents_unrouted: 1,
            assertions_extracted: 5,
            assertions_persisted: 4,
            assertion_insert_failures: 1,
            llm_call_errors: 1,
        }
    );
}

#[test]
fn dedup_key_is_deterministic() {
    let plan = sample_plan_with_triples(&[("supplier_of", &[("company:panasonic", "company:tsla")])]);
    let triple = &plan.expectations.relation_kinds[0].exemplar_triples[0];
    let k1 = dedup_key_for_triple(&plan, "supplier_of", triple);
    let k2 = dedup_key_for_triple(&plan, "supplier_of", triple);
    assert_eq!(k1, k2);
    assert!(k1.starts_with(&format!("plan:{}#relation_exemplar:", plan.id)));
    assert!(k1.contains(":supplier_of:"));
    assert!(k1.ends_with(":company:panasonic:company:tsla"));
}

#[test]
fn dedup_key_distinguishes_endpoints_and_kind() {
    let plan = sample_plan_with_triples(&[]);
    let t1 = RelationTripleExemplar { from: "company:a".into(), to: "company:b".into() };
    let t2 = RelationTripleExemplar { from: "company:b".into(), to: "company:a".into() };
    assert_ne!(
        dedup_key_for_triple(&plan, "supplier_of", &t1),
        dedup_key_for_triple(&plan, "supplier_of", &t2),
        "direction must matter for dedup"
    );
    assert_ne!(
        dedup_key_for_triple(&plan, "supplier_of", &t1),
        dedup_key_for_triple(&plan, "buyer_of", &t1),
        "kind must matter for dedup"
    );
}

#[test]
fn report_total_sums_all_buckets() {
    let mut r = MaterializationReport::default();
    r.materialized = 3;
    r.skipped_existing = 2;
    r.errors.push("x: y".into());
    assert_eq!(r.total(), 6);
}

#[test]
fn exemplar_work_skips_empty_kind_strings_and_trims() {
    let plan = sample_plan_with_triples(&[
        ("  ", &[("company:a", "company:b")]),
        (" supplier_of ", &[("company:c", "company:d"), ("company:e", "company:f")]),
        ("owns", &[]),
    ]);
    let work = exemplar_work(&plan);
    assert_eq!(
        work,
        vec![
            ExemplarWork { kind: "supplier_of".into(), from: "company:c".into(), to: "company:d".into() },
            ExemplarWork { kind: "supplier_of".into(), from: "company:e".into(), to: "company:f".into() },
        ]
    );
}

#[test]
fn materialize_outcomes_are_counted() {
    let w = ExemplarWork { kind: "k".into(), from: "a".into(), to: "b".into() };
    let mut r = MaterializationReport::default();
    assert_eq!(outcome_of_existence_check(Ok(false)), None);
    let skipped = outcome_of_existence_check(Ok(true)).unwrap();
    record_outcome(&mut r, &w, skipped);
    record_outcome(&mut r, &w, outcome_of_insert(Ok(())));
    let failed = outcome_of_existence_check(Err("db locked".into())).unwrap();
    record_outcome(&mut r, &w, failed);
    record_outcome(&mut r, &w, outcome_of_insert(Err("constraint".into())));
    assert_eq!(r.materialized, 1);
    assert_eq!(r.skipped_existing, 1);
    assert_eq!(
        r.errors,
        vec!["k:a->b: existence check: db locked".to_string(), "k:a->b: insert: constraint".to_string()]
    );
    assert_eq!(r.total(), 4);
    assert_eq!(outcome_of_insert(Ok(())), MaterializeOutcome::Inserted);
}

#[test]
fn predicate_filter_report_default_is_zeroed() {
    let r = PredicateFilterReport::default();
    assert_eq!(r.kept, 0);
    assert_eq!(r.dropped_unknown_kind, 0);
    assert!(r.dropped_predicates_sample.is_empty());
}

#[test]
fn allowed_predicate_is_kept() {
    let plan = mk_plan_with(&["holds_seat_on", "votes_with"]);
    let drafts = vec![mk_draft("holds_seat_on")];
    let (kept, report) = filter_drafts_against_plan(&drafts, &plan);
    assert_eq!(kept.len(), 1);
    assert_eq!(report.kept, 1);
    assert_eq!(report.dropped_unknown_kind, 0);
    assert!(report.dropped_predicates_sample.is_empty());
}

#[test]
fn unknown_predicate_is_dropped() {
    let plan = mk_plan_with(&["holds_seat_on", "votes_with"]);
    let drafts = vec![mk_draft("produces"), mk_draft("holds_seat_on")];
    let (kept, report) = filter_drafts_against_plan(&drafts, &plan);
    assert_eq!(kept.len(), 1);
    assert_eq!(drafts[kept[0]], "holds_seat_on");
    assert_eq!(report.dropped_unknown_kind, 1);
    assert_eq!(report.dropped_predicates_sample, vec!["produces".to_string()]);
}

#[test]
fn case_mismatch_is_drift_not_a_silent_normalisation() {
    let plan = mk_plan_with(&["operates"]);
    let drafts = vec![mk_draft("Operates")];
    let (kept, report) = filter_drafts_against_plan(&drafts, &plan);
    assert_eq!(kept.len(), 0);
    assert_eq!(report.dropped_unknown_kind, 1);
}

#[test]
fn empty_relation_kinds_is_no_op_passthrough() {
    let plan = mk_plan_with(&[]);
    let drafts = vec![mk_draft("anything")];
    let (kept, report) = filter_drafts_against_plan(&drafts, &plan);
    assert_eq!(kept.len(), 1);
    assert_eq!(report.kept, 1);
    assert_eq!(report.dropped_unknown_kind, 0);
}

#[test]
fn many_drops_truncate_sample_at_cap() {
    let plan = mk_plan_with(&["allowed_only"]);
    let mut drafts = Vec::new();
    for i in 0..(MAX_PREDICATE_LIST + 5) {
        drafts.push(mk_draft(&format!("predicate_{i}")));
    }
    let (kept, report) = filter_drafts_against_plan(&drafts, &plan);
    assert_eq!(kept.len(), 0);
    assert_eq!(report.dropped_unknown_kind, MAX_PREDICATE_LIST + 5);
    assert_eq!(report.dropped_predicates_sample.len(), MAX_PREDICATE_LIST);
}

#[test]
fn dropped_sample_is_sorted_distinct_and_keeps_order_of_kept() {
    let plan = mk_plan_with(&["a", "b"]);
    let drafts: Vec<String> = ["zeta", "b", "alpha", "zeta", "a", "Mu"].iter().map(|s| s.to_string()).collect();
    let (kept, report) = filter_drafts_against_plan(&drafts, &plan);
    assert_eq!(kept, vec![1, 4]);
    assert_eq!(report.kept, 2);
    assert_eq!(report.dropped_unknown_kind, 4);
    assert_eq!(
        report.dropped_predicates_sample,
        vec!["Mu".to_string(), "alpha".to_string(), "zeta".to_string()]
    );
}

#[test]
fn merge_topics_adds_plan_topic_tags() {
    let mut topics: Vec<String> = vec![];
    merge_topics(&mut topics, &["Li".to_string(), "batteries".to_string()]);
    assert_eq!(topics, vec!["Li".to_string(), "batteries".to_string()]);
}

#[test]
fn merge_topics_dedupes_topics_when_already_present() {
    let mut topics: Vec<String> = vec!["Li".into()];
    merge_topics(&mut topics, &["Li".to_string(), "batteries".to_string(), "batteries".to_string()]);
    assert_eq!(topics, vec!["Li".to_string(), "batteries".to_string()]);
    let again = topics.clone();
    merge_topics(&mut topics, &["Li".to_string(), "batteries".to_string()]);
    assert_eq!(topics, again);
}

#[test]
fn build_relation_carries_plan_keyed_provenance() {
    let mut plan = sample_plan_with_triples(&[("supplier_of", &[("company:panasonic", "company:tsla")])]);
    plan.topic_tags = vec!["test".into()];
    let triple = plan.expectations.relation_kinds[0].exemplar_triples[0].clone();
    let accepted: i64 = 1_778_846_400_000;
    let dedup = dedup_key_for_triple(&plan, "supplier_of", &triple);

    let rel = build_exemplar_relation(&plan, "supplier_of", &triple, accepted, dedup.clone());

    assert_eq!(rel.kind, "supplier_of");
    assert_eq!(rel.from, "company:panasonic");
    assert_eq!(rel.to, "company:tsla");
    assert_eq!(rel.source_id, format!("plan:{}#relation_exemplar", plan.id));
    assert_eq!(rel.license, "classifier-emitted");
    assert_eq!(rel.observed_at, accepted);
    assert_eq!(rel.dedup_key, dedup);
    assert_eq!(rel.entities.len(), 2);
    assert_eq!(rel.entities[0], "company:panasonic");
    assert_eq!(rel.entities[1], "company:tsla");
    assert_eq!(rel.topics.len(), 1);
    assert_eq!(rel.topics[0], "test");
}
