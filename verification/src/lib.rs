//! A verified core for a small static-site generator.
//!
//! Content documents (a front-matter header plus a body) are rendered to HTML
//! by converting the body (markdown for posts, raw text for pages), running
//! template substitution, and then wrapping the result in a chain of named
//! layouts, each of which may declare a parent layout.  The layout walk
//! carries a visited set and reports a cycle instead of looping.
//!
//! All file discovery and I/O stays outside this crate; the builder here is a
//! pure function from source documents and a layout store to a build report.

pub mod dict;
pub mod engines;
pub mod errors;
pub mod front_matter;
pub mod laws;
pub mod render;
pub mod site;
