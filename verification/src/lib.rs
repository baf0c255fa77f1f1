//! Post-processing of machine-generated protocol-buffer binding source.
//!
//! The library rewrites each generated source file so it integrates with a
//! target runtime's serialization and equality conventions: it pre-processes
//! the raw text, parses it into a declaration tree, injects derive markers and
//! metadata-driven attributes (consulting a schema index decoded from a binary
//! descriptor set), resolves known symbol clashes, prepends a standard import,
//! and re-emits canonical text.

pub mod decl;
pub mod descriptor;
pub mod emit;
pub mod parse;
pub mod pipeline;
pub mod preprocess;
pub mod roundtrip;
pub mod rules;
pub mod schema;
pub mod text;
