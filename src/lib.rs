//! Compiles a stream of markup events into a rich-text document tree.
pub mod model;
pub mod inline;
pub mod escape;
pub mod footnotes;
pub mod table;
pub mod scan;
pub mod compiler;
