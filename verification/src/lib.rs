//! Core logic for collaboratively edited structured documents: a tree
//! model for YAML/JSON-shaped data, a path resolver, a structural diff
//! engine, an atomic patch applier, and a conflict detector, together with
//! the textual boundaries (decode, encode, schema validation, front
//! matter, heading extraction) built on them.

pub mod codec;
pub mod diff;
pub mod diff_engine;
pub mod error;
pub mod error_code;
pub mod frontmatter;
pub mod laws;
pub mod md_transform;
pub mod patch;
pub mod patchdoc;
pub mod path;
pub mod pointer;
pub mod resolver;
pub mod schema_compile;
pub mod strings;
pub mod tree;
pub mod validate;
