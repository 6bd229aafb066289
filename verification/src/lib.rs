//! Streaming CSV row validation and cleaning.
//!
//! The library validates each record of a delimited text table against the
//! column count established by the header, applies optional per-cell
//! normalizations (null-pattern blanking, whitespace trimming, newline
//! folding), uniquifies column names, and classifies each row as good or bad.
//! A post-run quality gate turns "too many bad rows" into a distinct outcome.

pub mod cleaner;
pub mod errors;
pub mod pipeline;
pub mod uniquifier;
pub mod util;
