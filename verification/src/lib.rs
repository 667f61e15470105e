//! Dependency resolution engine for a configuration language.
//!
//! Given the syntax tree of a root file, the library extracts its import
//! references, classifies each as a leaf dependency (only that file's bytes
//! matter) or a deep dependency (that file's own imports matter too),
//! resolves import paths against a base directory and an ordered list of
//! search roots, and computes the transitive closure of dependencies over a
//! per-run analysis cache.

pub mod analysis;
pub mod ast;
pub mod cache;
pub mod closure;
pub mod paths;
pub mod resolve;
