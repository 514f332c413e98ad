//! Pattern-based entity extraction for investigative text, with a highlighter
//! that resolves overlapping detections into non-overlapping markup.
//!
//! Every function is verified with Verus against a mathematical model of the
//! text: a sequence of characters whose positions are byte offsets into its
//! UTF-8 encoding.
//!
//! - [`pattern`]: compiled rules, the boundary to the `regex` crate.
//! - [`catalog`]: the rules of every category, in declared order.
//! - [`extract`]: the scan that all categories share, with its
//!   deduplication.
//! - [`context`]: the snippet of text around a match.
//! - [`categories`]: the eight extractors and their filters.
//! - [`amount`]: normalization of amounts.
//! - [`engine`]: extraction of all or some categories, from one text or many.
//! - [`overlap`]: ordering of raw matches and greedy selection.
//! - [`markup`], [`readback`]: rendering, and the proof that markup reads
//!   back as the text.
//! - [`highlight`]: the highlighter.
//! - [`entity`], [`text`]: the data model and the text model.

pub mod amount;
pub mod catalog;
pub mod categories;
pub mod context;
pub mod engine;
pub mod entity;
pub mod extract;
pub mod highlight;
pub mod markup;
pub mod overlap;
pub mod pattern;
pub mod readback;
pub mod text;

pub use catalog::{HighlightCatalog, PatternCatalog};
pub use engine::{extract_all, extract_batch, extract_types, ExtractionResult};
pub use entity::{AmountValue, Category, Entity, Scale};
pub use highlight::{
    accepted_entities, count_entities, extract_entities, highlight_entities, EntityCounts,
    HighlightResult, HighlightedEntity,
};
pub use pattern::{PatternError, Rule};
