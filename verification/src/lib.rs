//! Scans a directory tree for keymap configuration files written in a relaxed
//! JSON-like syntax and turns the per-file outcomes into precise, bounded
//! diagnostics.  The verified core consists of the line-ending normalizer and
//! span translator ([`text`]), the failure-tree renderer ([`tree`]), the
//! diagnostic aggregator ([`diag`]), and the parsed entry shapes ([`keymap`]).
//! Walking the filesystem, reading files, and running the external parser are
//! left to a thin unverified front end that hands this crate plain values.

pub mod classify;
pub mod diag;
pub mod keymap;
pub mod message;
pub mod text;
pub mod tree;
