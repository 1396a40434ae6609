//! A table-driven operator-precedence (Pratt) expression parser.
//!
//! The `token` module scans source text into a flat token sequence; the
//! `pratt` module climbs precedences over that sequence, consulting two
//! rule registries, and builds an abstract syntax tree.

pub mod pratt;
pub mod token;
