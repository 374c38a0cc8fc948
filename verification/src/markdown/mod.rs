//! Markdown preprocessing for the preview.
pub mod parser;
pub mod preview;
