use pipeline::promote::{
    classify_insert_error, dedup_already_promoted, group_assertions_for_consensus, hex128,
    insert_outcome, record_authoritative_outcome, record_consensus_outcome,
    select_consensus_promotions, subject_hash_for, ClaimFacts, GroupKey, InsertResult,
    PromoteError, PromoteReport, PromotedShape, Subjects,
};

fn subjects(topics: &[&str], entities: &[&str]) -> Subjects {
    Subjects {
        topics: topics.iter().map(|t| t.to_string()).collect(),
        entities: entities.iter().map(|e| e.to_string()).collect(),
    }
}

fn key(content: &str, subject: &str) -> GroupKey {
    GroupKey { content_hash: content.to_string(), subject_hash: subject.to_string() }
}

fn claim(content: &str, claimant: &str, quorum_override: Option<u32>) -> ClaimFacts {
    let subject = subject_hash_for(&subjects(&["lithium"], &[]));
    ClaimFacts {
        key: GroupKey { content_hash: hex128(content.as_bytes()), subject_hash: subject },
        claimant: claimant.to_string(),
        quorum_override,
    }
}

#[test]
fn subject_hash_is_topic_order_invariant() {
    let a = subject_hash_for(&subjects(&["lithium", "battery_supply_chain"], &[]));
    let b = subject_hash_for(&subjects(&["battery_supply_chain", "lithium"], &[]));
    assert_eq!(a, b);
}

#[test]
fn subject_hash_hashes_sorted_tagged_lines() {
    let h = subject_hash_for(&subjects(&["b", "a"], &["x"]));
    assert_eq!(h, hex128(b"t:a\nt:b\ne:x\n"));
    assert_eq!(subject_hash_for(&subjects(&[], &[])), hex128(b""));
}

#[test]
fn subject_hash_separates_topics_from_entities() {
    let as_topic = subject_hash_for(&subjects(&["lithium"], &[]));
    let as_entity = subject_hash_for(&subjects(&[], &["lithium"]));
    assert_ne!(as_topic, as_entity);
}

#[test]
fn grouping_clusters_by_content_and_subject() {
    let claims = vec![
        claim("production=142000", "agency:reuters", None),
        claim("production=142000", "agency:bloomberg", None),
        claim("production=142000", "agency:argus", None),
    ];
    let keys: Vec<GroupKey> = claims.iter().map(|c| c.key.clone()).collect();
    let grouped = group_assertions_for_consensus(&keys);
    assert_eq!(grouped.len(), 1);
    assert_eq!(grouped[0].members.len(), 3);
}

#[test]
fn grouping_separates_distinct_values() {
    let claims = vec![
        claim("production=142000", "agency:reuters", None),
        claim("production=143000", "agency:bloomberg", None),
    ];
    let keys: Vec<GroupKey> = claims.iter().map(|c| c.key.clone()).collect();
    let grouped = group_assertions_for_consensus(&keys);
    assert_eq!(grouped.len(), 2, "distinct values produce distinct groups");
}

#[test]
fn grouping_orders_groups_by_key_and_members_by_position() {
    let keys = vec![key("b", "s"), key("a", "t"), key("b", "s"), key("a", "s"), key("a", "t")];
    let grouped = group_assertions_for_consensus(&keys);
    let shape: Vec<(String, String, Vec<usize>)> = grouped
        .iter()
        .map(|g| (g.key.content_hash.clone(), g.key.subject_hash.clone(), g.members.clone()))
        .collect();
    assert_eq!(
        shape,
        vec![
            ("a".to_string(), "s".to_string(), vec![3]),
            ("a".to_string(), "t".to_string(), vec![1, 4]),
            ("b".to_string(), "s".to_string(), vec![0, 2]),
        ]
    );
    assert!(group_assertions_for_consensus(&Vec::new()).is_empty());
}

#[test]
fn consensus_selection_promotes_groups_that_reach_quorum() {
    let claims = vec![
        claim("v=1", "agency:a", None),
        claim("v=2", "agency:a", None),
        claim("v=1", "agency:b", None),
        claim("v=1", "agency:c", None),
        claim("v=2", "agency:a", None),
    ];
    let sel = select_consensus_promotions(&claims, 3);
    assert_eq!(sel.groups.len(), 2);
    assert_eq!(sel.candidates.len(), 1);
    let c = &sel.candidates[0];
    assert_eq!(c.supports, vec![0, 2, 3]);
    assert_eq!(c.representative, 0);
    assert_eq!(
        c.dedup_key,
        format!("promotion:{}:{}", claims[0].key.content_hash, claims[0].key.subject_hash)
    );
}

#[test]
fn quorum_not_met_when_one_claimant_repeats_in_selection() {
    let claims = vec![
        claim("v=1", "agency:reuters", None),
        claim("v=1", "agency:reuters", None),
        claim("v=1", "agency:reuters", None),
    ];
    let sel = select_consensus_promotions(&claims, 3);
    assert_eq!(sel.groups.len(), 1);
    assert!(sel.candidates.is_empty());
}

/// The consensus report when every candidate inserts as an observation.
fn consensus_report(claims: &Vec<ClaimFacts>, min: u32) -> PromoteReport {
    let sel = select_consensus_promotions(claims, min);
    let mut r = PromoteReport::default();
    for _ in &sel.candidates {
        record_consensus_outcome(&mut r, PromotedShape::Observation, InsertResult::Inserted);
    }
    r
}

#[test]
fn consensus_quorum_override_lowers_bar_for_matching_groups() {
    let claims = vec![
        claim("production=142000", "agency:reuters", Some(2)),
        claim("production=142000", "agency:bloomberg", None),
    ];
    let report = consensus_report(&claims, 3);
    assert_eq!(report.authoritative_promoted, 0);
    assert_eq!(report.observations_emitted, 1, "consensus_quorum=2 should let the 2-claimant group promote");
    assert_eq!(report.groups_promoted, 1);
}

#[test]
fn consensus_quorum_override_does_not_promote_below_override() {
    let claims = vec![claim("production=142000", "agency:reuters", Some(2))];
    let report = consensus_report(&claims, 3);
    assert_eq!(report.authoritative_promoted, 0);
    assert_eq!(report.observations_emitted, 0);
    assert_eq!(report.groups_promoted, 0);
}

#[test]
fn consensus_quorum_override_min_wins_when_multiple_entries_match() {
    let claims = vec![
        claim("production=142000", "agency:reuters", Some(3)),
        claim("production=142000", "agency:bloomberg", Some(2)),
    ];
    let report = consensus_report(&claims, 3);
    assert_eq!(report.authoritative_promoted, 0);
    assert_eq!(report.observations_emitted, 1);
    assert_eq!(report.groups_promoted, 1);
}

#[test]
fn existence_check_failure_counts_as_not_found() {
    assert!(dedup_already_promoted(&Ok(true)));
    assert!(!dedup_already_promoted(&Ok(false)));
    assert!(!dedup_already_promoted(&Err("connection reset".to_string())));
}

#[test]
fn insert_errors_mentioning_duplication_are_skips() {
    assert_eq!(classify_insert_error("Constraint Error: Duplicate key"), InsertResult::SkippedDuplicate);
    assert_eq!(classify_insert_error("violates UNIQUE constraint"), InsertResult::SkippedDuplicate);
    assert_eq!(classify_insert_error("index on DEDUP_KEY"), InsertResult::SkippedDuplicate);
    assert_eq!(classify_insert_error("disk full"), InsertResult::FailedOther);
    assert_eq!(classify_insert_error(""), InsertResult::FailedOther);
    assert_eq!(insert_outcome(&Ok(())), InsertResult::Inserted);
    assert_eq!(insert_outcome(&Err("unique violation".to_string())), InsertResult::SkippedDuplicate);
    assert_eq!(insert_outcome(&Err("io error".to_string())), InsertResult::FailedOther);
}

#[test]
fn consensus_outcomes_are_tallied_once_each() {
    let mut r = PromoteReport::default();
    record_consensus_outcome(&mut r, PromotedShape::Observation, InsertResult::Inserted);
    record_consensus_outcome(&mut r, PromotedShape::EntityAttribute, InsertResult::Inserted);
    record_consensus_outcome(&mut r, PromotedShape::Event, InsertResult::SkippedDuplicate);
    record_consensus_outcome(&mut r, PromotedShape::Relation, InsertResult::FailedOther);
    assert_eq!(r.groups_promoted, 2);
    assert_eq!(r.observations_emitted, 1);
    assert_eq!(r.entity_attributes_emitted, 1);
    assert_eq!(r.events_emitted, 0);
    assert_eq!(r.relations_emitted, 0);
    assert_eq!(r.skipped_already_promoted, 1);
    assert_eq!(r.insert_failures, 1);
    assert_eq!(r.authoritative_promoted, 0);
}

#[test]
fn authoritative_failures_go_on_to_consensus() {
    let mut r = PromoteReport::default();
    assert!(!record_authoritative_outcome(&mut r, PromotedShape::Relation, InsertResult::Inserted));
    assert!(!record_authoritative_outcome(&mut r, PromotedShape::Relation, InsertResult::SkippedDuplicate));
    assert!(record_authoritative_outcome(&mut r, PromotedShape::Event, InsertResult::FailedOther));
    assert_eq!(r.authoritative_promoted, 1);
    assert_eq!(r.relations_emitted, 1);
    assert_eq!(r.groups_promoted, 0);
    assert_eq!(r.skipped_already_promoted, 1);
    assert_eq!(r.insert_failures, 1);
}

#[test]
fn promote_error_message_names_the_storage_failure() {
    assert_eq!(PromoteError::Storage("db locked".into()).message(), "storage error: db locked");
}
