//! Fetch-recipe vocabulary: the closed set of extraction modes, row
//! filters, expectation references and field mappings a recipe carries.

use vstd::prelude::*;

verus! {

/// The six record types.
#[derive(Debug, Clone, Copy, PartialEq, Eq, Structural)]
pub enum RecordType {
    Observation,
    Event,
    Entity,
    Relation,
    Document,
    Assertion,
}

/// How the runtime extracts a value from fetched content. Closed enum of
/// five modes.
#[derive(Debug, Clone, PartialEq, Eq)]
pub enum ExtractionSpec {
    /// JSONPath expression evaluated against the JSON root.
    JsonPath { path: String },
    /// CSS selector, optionally reading an attribute instead of the text.
    CssSelect { selector: String, attribute: Option<String> },
    /// CSV cell by column name, with an optional row filter.
    CsvCell { column: String, row_filter: Option<RowFilter> },
    /// PDF table cell: 1-indexed page, then table, row and column indices.
    PdfTable { page: u32, table_index: u32, row: u32, col: u32 },
    /// Regex capture group against the raw body.
    RegexCapture { pattern: String, group: u32 },
}

/// Row selection for a CSV cell.
#[derive(Debug, Clone, PartialEq, Eq)]
pub enum RowFilter {
    /// The row where `column` equals `value`.
    Equals { column: String, value: String },
    /// The row whose `label_column` holds `label`.
    LabeledAs { label_column: String, label: String },
}

/// Reference by position into one of the plan's expectation lists.
#[derive(Debug, Clone, Copy, PartialEq, Eq, Structural)]
pub enum ExpectationRef {
    ObservationMetric { index: u32 },
    EventType { index: u32 },
    EntityKind { index: u32 },
    RelationKind { index: u32 },
    DocumentSource { index: u32 },
}

/// Where a field's value comes from.
#[derive(Debug, Clone, PartialEq, Eq)]
pub enum FieldValueSource {
    /// The value extracted by the recipe.
    Extracted,
    /// A literal constant, held as its JSON text.
    Literal { value: String },
    /// A value taken from the plan, by dot-separated pointer.
    FromPlan { pointer: String },
    /// A leaf extracted by an inner extraction run within the scope of
    /// the recipe's match.
    ExtractedInner { spec: ExtractionSpec },
}

/// Maps one value to one dot-separated field path of the target record.
#[derive(Debug, Clone, PartialEq, Eq)]
pub struct FieldMap {
    pub path: String,
    pub source: FieldValueSource,
}

/// What one recipe emits per apply: a record type, the expectation it
/// fulfils, and the field mappings.
#[derive(Debug, Clone, PartialEq, Eq)]
pub struct ProductionBinding {
    pub record_type: RecordType,
    pub expectation: ExpectationRef,
    pub field_mappings: Vec<FieldMap>,
    /// For iterator recipes: the field path whose value identifies each
    /// produced record.
    pub dedup_key_field: Option<String>,
}

/// A deterministic instruction for fetching one source and producing
/// records. Identifiers are UUIDs in canonical hyphenated text; the
/// authoring time is in milliseconds since the Unix epoch.
#[derive(Debug, Clone, PartialEq, Eq)]
pub struct FetchRecipe {
    pub id: String,
    pub dedup_key: Option<String>,
    pub plan_id: String,
    pub source_id: String,
    pub source_url: String,
    pub extraction: ExtractionSpec,
    /// For listing pages: the extraction that selects each repeated
    /// element, within which `extraction` runs once per element.
    pub iterator: Option<ExtractionSpec>,
    pub produces: Vec<ProductionBinding>,
    pub authored_at: u64,
    pub authored_by: String,
    pub version: u32,
    /// Bake-time-frozen payload served in place of a fetch, when present.
    pub static_payload: Option<String>,
    /// The recipe this one re-authors, if any.
    pub prior_recipe_id: Option<String>,
    /// Why it was re-authored, if it was.
    pub reauthor_reason: Option<String>,
}

} // verus!
