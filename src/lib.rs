//! Font-search directory resolution and reconciliation.
//!
//! `cascade` works out, from an environment snapshot and the font
//! configuration files, the ordered and duplicate-free list of directories
//! in which fonts are searched. `reconcile` compares such a list with the one
//! reported by the native configuration engine and labels every difference.
pub mod cascade;
pub mod config;
mod disk;
pub mod reconcile;
