//! Heuristic statistics over CSS source text.
//!
//! The crate counts selectors, rule blocks and property declarations in a
//! single pass over the characters of a style sheet. It builds no syntax
//! tree and rejects no input: malformed text yields best-effort counts.
//! Comments and quoted strings are not recognized, and what is nested two
//! blocks deep or deeper is not counted.
//!
//! - [`scan`] states what is counted, as a scanner that reads one character
//!   at a time, and what holds of its counts.
//! - [`selectors`] states what the selectors of a selector list are, and
//!   counts them.
//! - [`whitespace`] says which characters are white space.
//! - [`analysis`] holds the analyzer itself.

pub mod analysis;
pub mod scan;
pub mod selectors;
pub mod whitespace;

pub use crate::analysis::{analyze_css, try_analyze_css, CssAnalysis};
