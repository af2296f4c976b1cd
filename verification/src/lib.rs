//! Scheduling and review-session engine for a spaced-repetition learning
//! application.
//!
//! The engine classifies cards into learning stages relative to the local
//! calendar day, runs the two-phase preview/commit review protocol against
//! the FSRS memory model, and assembles the training pipeline that refits
//! the model's parameters from accumulated review history.
//!
//! Instants are modelled as seconds since the Unix epoch (`i64`); calendar
//! days as whole-day numbers derived from them.  The memory model's scalar
//! values (parameters, retention, stability, difficulty, intervals) pass
//! through the engine as opaque `f32` bit patterns (`u32`), so the engine
//! itself never computes with floating point: everything it decides is
//! integer arithmetic.

use vstd::prelude::*;

pub mod calendar;
pub mod classify;
pub mod interval;
pub mod models;
pub mod params;
pub mod session;
pub mod sorting;
pub mod template_config;
pub mod trainer;

verus! {

/// Seconds in one calendar day.
pub const SECS_PER_DAY: i64 = 86_400;

/// Latest instant the engine accepts: 9999-12-31T23:59:59Z.  Keeping
/// instants below this bound rules out arithmetic overflow everywhere a
/// day count (at most `u32::MAX` days) is added to an instant.
pub const MAX_INSTANT: i64 = 253_402_300_799;

/// Length of the oracle parameter vector the engine stores.
pub const FSRS_PARAM_LEN: usize = 19;

/// Length of the parameter vector the oracle's trainer produces.
pub const TRAINED_PARAM_LEN: usize = 21;

/// Fewest training cases the trainer accepts: below this floor it keeps
/// the current parameters rather than fit an unstable model.
pub const MIN_TRAINING_CASES: usize = 10;

/// An element-by-element copy of a vector of plain values.
pub fn copy_vec<T: Copy>(v: &Vec<T>) -> (copy: Vec<T>)
    ensures
        copy@ == v@,
{
    let mut copy: Vec<T> = Vec::new();
    let mut i: usize = 0;
    while i < v.len()
        invariant
            0 <= i <= v@.len(),
            copy@ == v@.take(i as int),
        decreases v@.len() - i,
    {
        copy.push(v[i]);
        proof {
            assert(v@.take(i + 1) =~= v@.take(i as int).push(v@[i as int]));
        }
        i += 1;
    }
    proof {
        assert(v@.take(v@.len() as int) =~= v@);
    }
    copy
}

/// Errors the engine itself can produce.  Store- and configuration-level
/// failures arise outside the engine and are reported by the embedding
/// application.
#[derive(Debug, Clone, Copy, PartialEq, Eq, Structural)]
pub enum EngineError {
    /// A review rating was not one of 1 (again), 2 (hard), 3 (good), 4 (easy).
    InvalidRating,
    /// `commit` was called with no uncommitted preview outstanding.
    NoPendingPreview,
    /// The memory-model oracle rejected its input or failed to produce a result.
    OracleComputationFailed,
    /// A template configuration entry with the same name already exists.
    DuplicateTemplateName,
}

} // verus!
