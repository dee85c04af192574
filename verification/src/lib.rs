//! Static-site generation library for encyclopedia-style documents.
//!
//! The library is organised around four ideas:
//! - validated location values (path fragments, anchors, internal paths,
//!   external URLs) and relative-link computation between pages;
//! - typed content nodes (inline text, blocks, table cells and rows,
//!   sections, assets, pages), where each container only accepts children
//!   of the matching kind;
//! - output formats (HTML, Markdown, plain text) behind a shared
//!   whitespace-and-indentation normalizer for the textual formats;
//! - an in-memory site tree with path-based insertion and a build walk
//!   that turns the tree into a list of file operations.

pub mod component;
pub mod decimal;
pub mod encode;
pub mod escape;
pub mod location;
pub mod render;
pub mod site;
