//! Linguistically weighted edit distances between sequences of phonetic
//! symbols, scored by a configurable model of phonological distinctive
//! features.
//!
//! The crate is organised bottom-up:
//! - [`features`] holds the immutable value types: symbols, feature values
//!   with their numeric magnitudes, named features, and the merge rule for
//!   feature vectors;
//! - [`parser`] turns lines of the declaration language into definitions;
//! - [`systems`] resolves definitions into a [`systems::PhonologicalFeatureSystem`];
//! - [`phoneme_tokenizer`] segments raw text into a system's symbols by
//!   longest match;
//! - [`levenshtein`] is the generic weighted edit-distance engine over any
//!   cost policy, with [`feature_distance`] and [`phoneme_distance`] the two
//!   concrete policies;
//! - [`analysis`] compiles step sequences into cost/length/error-rate
//!   summaries;
//! - [`example`] is a small self-contained demonstration of a multi-indexed
//!   phoneme table.

pub mod errors;
pub mod features;
pub mod parser;
pub mod systems;
pub mod levenshtein;
pub mod phoneme_distance;
pub mod feature_distance;
pub mod phoneme_tokenizer;
pub mod analysis;
pub mod example;
