//! A micro-benchmark library for building batches of layered binary-tree
//! structures ("grand product circuits") and folding each one down to a single
//! 256-bit summary value with exclusive-or.
//!
//! The shapes mimic product-check arguments from proof systems: a full binary
//! tree whose layers halve in size from the leaves up. No cryptographic claim
//! is made; the exclusive-or fold is a cheap reduction that forces memory
//! traffic through every element.

pub mod batch;
pub mod circuit;
pub mod element;
