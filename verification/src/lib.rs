//! Brute-force search for a plaintext whose digest matches a target value.
//!
//! The crate enumerates, for each length in a configured range, every
//! string drawn (with repetition) from an ordered alphabet, hashes each
//! candidate, and reports the first candidate whose digest equals the
//! target, or that the whole range holds no match.

mod digest;
mod engine;
mod product;

pub use digest::Algorithm;
pub use digest::compute;
pub use digest::digest_len;
pub use digest::digest_of;
pub use digest::md5_of;
pub use engine::ConfigError;
pub use engine::Coordinator;
pub use engine::SearchConfig;
pub use engine::SearchOutcome;
pub use engine::SearchStatus;
pub use engine::bytes_equal;
pub use engine::candidate_in_range;
pub use engine::evaluate;
pub use engine::length_exhausted;
pub use engine::lemma_match_precludes_not_found;
pub use engine::no_match_in_range;
pub use engine::outcome_matches;
pub use engine::search;
pub use engine::search_length;
pub use product::ProductGen;
pub use product::from_alphabet;
pub use product::lemma_empty_alphabet;
pub use product::lemma_empty_length;
pub use product::lemma_enumeration_deterministic;
pub use product::lemma_tuples_distinct;
pub use product::lemma_words_distinct;
pub use product::product_repeat;
pub use product::tuple_at;
pub use product::tuple_count;
pub use product::word_at;
