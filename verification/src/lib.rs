//! Configuration-resolution engine for a schema-driven code generator.
//!
//! Overrides for schema elements are collected in attribute bags ([`config::Config`]),
//! registered in a hierarchical store keyed by dot-delimited paths
//! ([`pathtree::PathTree`]), and resolved for a concrete element by merging every
//! bag found on the element's ancestor chain, root first.  String-valued
//! overrides are converted into typed source fragments only on demand.

pub mod config;
pub mod gen_config;
pub mod parse;
pub mod pathtree;

pub use config::Config;
pub use config::CustomField;
pub use config::IntType;
pub use gen_config::GenConfig;
pub use parse::OverrideError;
pub use parse::ParsedCustomField;
pub use pathtree::PathTree;
