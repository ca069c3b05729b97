//! A small search-index library: text analysis, document conversion,
//! a query tree with matching and scoring, and in-memory indices.

pub mod analysis;
pub mod value;
pub mod document;
pub mod query;
pub mod builders;
pub mod index;
pub mod api;
pub mod parser;
