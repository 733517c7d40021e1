//! Third-party license notice aggregation.
//!
//! The crate validates each dependency's SPDX license expression against a
//! configured allow-list, accumulates a deduplicated set of license
//! requirements, harvests copyright statements from dependency source trees,
//! and renders the aggregate as HTML, Markdown and JSON documents.

pub mod chars;
pub mod collect;
pub mod error;
pub mod expr;
pub mod notices;
pub mod parse;
pub mod render;
pub mod req;
pub mod scan;
pub mod texts;
