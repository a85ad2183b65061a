//! Any file to Markdown.

pub mod error;
pub mod figures;
pub mod format;
pub mod format_laws;
pub mod html;
pub mod laws;
pub mod pdf;
pub mod regex_text;
pub mod runtime;
