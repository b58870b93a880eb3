//! A text-processing toolkit: tokenizers, k-skip-n-gram generation, and
//! sparse (CSR) document-term vectorization.

use vstd::prelude::*;

pub mod chars;
pub mod errors;
pub mod math;
pub mod ngram_utils;
pub mod token_processing;
pub mod token_processor;
pub mod tokenize;
pub mod tokenize_sentence;
pub mod vectorize;

verus! {

/// Number of columns used by the hashing vectorizer when none is configured.
pub const DEFAULT_N_FEATURES: u64 = 1048576;

} // verus!
