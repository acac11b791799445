//! Execution engine for a small imperative automation language: a syntax
//! tree generic over how called functions are referenced, a linker that
//! resolves names to dense ids, and an interpreter that records a trace of
//! run states keyed by call path.

pub mod library;
pub mod run;
pub mod syntax_tree;
pub mod tracer;
