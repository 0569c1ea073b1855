//! Deterministic pieces of the research pipeline: the index-page
//! detector, recipe runtime helpers, prompt rendering and report types.

pub mod bytes;
pub mod content;
pub mod index_page_detector;
pub mod normalize;
pub mod order;
pub mod strings;
pub mod recipe_author;
pub mod text;
pub mod recipes;
pub mod recipes_store;
pub mod reextract;
pub mod relation_synth;
pub mod relation_vocab;
pub mod research;
pub mod stamps;
pub mod parsers;
pub mod promote;
pub mod propose_source_url;
pub mod recipe_apply;
