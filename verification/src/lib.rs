//! Identifiers, syntax tree and semantic rules of an IEC 61131-3 compiler.
pub mod ident;
pub mod graph;
pub mod ast;
pub mod diagnostic;
pub mod rule_enumeration_values_unique;
pub mod rule_pous_no_cycles;
pub mod fold;
pub mod stages;
