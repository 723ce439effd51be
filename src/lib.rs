//! A hierarchical knowledge graph built from loosely linked text documents.
//!
//! Each document may declare a parent in its front matter and links to other
//! documents in its body. The library derives a closed graph from a set of such
//! documents (dangling references are dropped, backlinks are derived) and
//! answers navigation queries on it: children, siblings, uncles and links.
use vstd::prelude::*;

pub mod error;
pub mod files;
pub mod model;
pub mod parser;
pub mod repo;
pub mod builder;
pub mod ingest;
pub mod templates;
