//! A small personal-notes library with semantic retrieval.
//!
//! Notes are stored together with an embedding vector; a question is
//! answered by embedding it, ranking every stored note by cosine
//! similarity against the query vector, and assembling the best matches
//! into a context block for a completion request.
//!
//! Embedding coordinates are held in fixed-point form: an `i64` counts
//! millionths, so the coordinate `1.5` is the value `1_500_000`.  All
//! similarity scores are millionth-scaled as well.

use vstd::prelude::*;

pub mod codec;
pub mod errors;
pub mod note;
pub mod pipeline;
pub mod prompt;
pub mod rank;
pub mod vector;

verus! {

/// Fixed-point scale: one unit is a millionth.
pub const SCALE: i64 = 1_000_000;

/// Largest coordinate magnitude a valid embedding may hold (one
/// thousand whole units in fixed-point form).
pub const MAX_COORD: i64 = 1_000_000_000;

/// Largest number of coordinates a valid embedding may hold.
pub const MAX_DIM: usize = 65536;

/// How many ranked entries at most go into the answer context.
pub const TOP_K: usize = 10;

} // verus!
