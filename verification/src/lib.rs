//! Edit-distance metrics over Unicode code points: the exact Levenshtein
//! distance, a windowed partial variant that finds the best same-length
//! substring alignment, and raw similarity scores derived from both.
//!
//! Comparison is by code-point equality only; every insertion, deletion
//! and substitution costs one.

pub mod edit;
pub mod partial;

pub use edit::distance;
pub use edit::similarity;
pub use partial::partial_distance;
pub use partial::partial_similarity;
