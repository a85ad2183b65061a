//! Remote OCR. Recognition is delegated to an HTTP provider; the runtime never
//! bundles OCR models itself.

pub mod image_pass;
pub mod laws;
pub mod paddle;
pub mod page_ranges;
pub mod provider;
pub mod scaling;
