//! Keyboard-addressable overlay grid for a screen.
//!
//! `config` decides the effective grid shape from the monitor's orientation and
//! validates configured values; `grid` partitions the monitor into labelled cells
//! and answers label lookups.

pub mod config;
pub mod grid;
