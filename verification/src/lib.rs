//! Fuzzy search over timestamped subtitle lines.
//!
//! A query is normalized into lowercase words, each line of a corpus is
//! scored against those words, and the lines that qualify are merged into one
//! ranked list. Every score is an exact fraction and every threshold a
//! fixed-point integer, so that each step has a contract over integers and
//! sequences of characters.

pub mod disjoint;
pub mod lcs;
pub mod params;
pub mod partial;
pub mod prefilter;
pub mod query;
pub mod rank;
pub mod response;
pub mod scan;
pub mod score;
pub mod text;
pub mod words;
