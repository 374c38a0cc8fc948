//! A Markdown editor's text logic: editing with undo history, search and
//! replace, wiki links, heading anchors and workspace bookkeeping.
pub mod text;
pub mod editor;
pub mod markdown;
pub mod app;
pub mod config;
pub mod workspace;
pub mod keymap;
pub mod explorer;
