//! The research plan as the pipeline reads it: the interpretation, topic
//! tags, geographic scope, historical window and the expectation lists
//! that recipes and exemplars refer to.

use vstd::prelude::*;

verus! {

/// A geographic scope entry: a code and an optional display name (empty
/// when absent).
#[derive(Debug, Clone, PartialEq, Eq)]
pub struct GeoScope {
    pub code: String,
    pub display: String,
}

/// An exemplar relation triple named by the classifier: two entity ids.
#[derive(Debug, Clone, PartialEq, Eq)]
pub struct RelationTripleExemplar {
    pub from: String,
    pub to: String,
}

/// A relation kind the plan expects, with its exemplar triples.
#[derive(Debug, Clone, PartialEq, Eq)]
pub struct RelationKindExpectation {
    pub kind: String,
    pub exemplar_triples: Vec<RelationTripleExemplar>,
}

/// The plan's expectation lists. Recipes refer to entries by position;
/// the entries other than relation kinds are carried by their names.
#[derive(Debug, Clone, PartialEq, Eq)]
pub struct RecordExpectations {
    pub observation_metrics: Vec<String>,
    pub event_types: Vec<String>,
    pub entity_kinds: Vec<String>,
    pub relation_kinds: Vec<RelationKindExpectation>,
    pub document_sources: Vec<String>,
}

/// A research plan. `id` is the plan's UUID in its canonical hyphenated
/// text form.
#[derive(Debug, Clone, PartialEq, Eq)]
pub struct ResearchPlan {
    pub id: String,
    pub topic: String,
    pub interpretation: String,
    pub topic_tags: Vec<String>,
    pub geographic_scope: Vec<GeoScope>,
    pub historical_window_days: u32,
    pub expectations: RecordExpectations,
}

/// How authoritative a nominated source is expected to be.
#[derive(Debug, Clone, Copy, PartialEq, Eq, Structural)]
pub enum PriorityTier {
    AuthoritativePrimary,
    AuthoritativeSecondary,
    IndustryTradePress,
    GeneralNews,
}

/// A document source the plan nominates, by description and tier.
#[derive(Debug, Clone, PartialEq, Eq)]
pub struct DocumentSourceNomination {
    pub nomination_id: String,
    pub description: String,
    pub priority_tier: PriorityTier,
}

} // verus!
