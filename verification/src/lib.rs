//! Constraint-generation and witness-assignment engine for circuits over
//! quantized (fixed-point integer) values.
//!
//! The crate compiles a closed catalog of primitive arithmetic operations
//! into selector-gated polynomial constraints, compiles nonlinear operations
//! into lookup-table-backed constraints with table deduplication, and drives
//! witness assignment for both, including an optional consistency check
//! between a claimed output and a pure-value recomputation.

pub mod base;
pub mod checker;
pub mod chip;
pub mod expr;
pub mod felt;
pub mod layout;
pub mod nl;
pub mod system;
pub mod table;
pub mod witness;
