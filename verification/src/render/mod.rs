//! The document model and its GitHub-Flavored Markdown serializer.

pub mod block_laws;
pub mod escape;
pub mod inline;
pub mod inline_laws;
pub mod laws;
pub mod markdown;
pub mod model;
pub mod table;
pub mod table_laws;
