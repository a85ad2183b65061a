//! Documents and media to Markdown, with OCR and transcription providers.

pub mod content_laws;
pub mod fetch;
pub mod laws;
pub mod names;
pub mod provider;
pub mod providers;
pub mod runtime;
pub mod service_laws;
