//! Global pairwise alignment of symbol sequences.
//!
//! Penalties and scores are exact fixed-point numbers with two decimal
//! places, held as integer counts of hundredths of a point.

pub mod align;
pub mod fasta;
pub mod laws;
pub mod scoring;
pub mod sequence;
pub mod text;
pub mod web;
