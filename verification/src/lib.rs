//! Verified core of a pattern-based lint engine for Rust MIR.
//!
//! The library holds the data-flow facts that constraint predicates read
//! (which locals are null, which locals are products or quotients of others),
//! the construction of user-defined diagnostics from pattern files, the
//! mapping between meta variables of two patterns, the control-flow edges of
//! pattern bodies, and the bookkeeping of pattern collection.

pub mod diag;
pub mod diag_builder;
pub mod diag_parse;
pub mod driver;
pub mod graph;
pub mod lang_item;
pub mod locals;
pub mod matched_map;
pub mod meta;
pub mod translate;
pub mod product_closure;
pub mod null_facts;
