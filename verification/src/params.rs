//! The oracle parameter store: the memory model's parameter vector and
//! the desired retention scalar.
//!
//! Both scalars live here as opaque `f32` bit patterns.  The store is an
//! explicit value owned by the embedding layer, which loads it from
//! persisted configuration at startup, guards it with its own lock, and
//! flushes it back on shutdown; the engine only defines what each
//! operation does to the stored values.

use vstd::prelude::*;

use crate::{copy_vec, FSRS_PARAM_LEN};

verus! {

/// Whether any entry of a parameter vector is a value other than zero.
/// An `f32` encodes zero at exactly the two bit patterns `0` and
/// `0x8000_0000` (the two signs), so the test is decided on the bits;
/// every other pattern — NaN included — compares unequal to zero.
pub open spec fn spec_any_param_nonzero(params: Seq<u32>) -> bool {
    exists|i: int|
        0 <= i < params.len() && params[i] != 0u32 && params[i] != 0x8000_0000u32
}

/// Tests whether a stored parameter vector holds any nonzero value: an
/// all-zero vector is treated as unset, and a caller falls back to
/// persisted configuration values in its place.
pub fn any_param_nonzero(params: &Vec<u32>) -> (nonzero: bool)
    ensures
        nonzero == spec_any_param_nonzero(params@),
{
    let mut i: usize = 0;
    while i < params.len()
        invariant
            0 <= i <= params@.len(),
            forall|j: int| 0 <= j < i ==> params@[j] == 0u32 || params@[j] == 0x8000_0000u32,
        decreases params@.len() - i,
    {
        if params[i] != 0 && params[i] != 0x8000_0000 {
            return true;
        }
        i += 1;
    }
    false
}

/// The stored oracle parameters and desired retention.
pub struct ParameterStore {
    /// Bit patterns of the parameter vector, always [`FSRS_PARAM_LEN`] long.
    pub params: Vec<u32>,
    /// Bit pattern of the desired retention scalar.
    pub retention_bits: u32,
}

impl ParameterStore {
    /// The store invariant: the parameter vector keeps its fixed length.
    pub open spec fn wf(self) -> bool {
        self.params@.len() == FSRS_PARAM_LEN
    }

    /// A store loaded with the given parameters and retention.
    pub fn new(params: Vec<u32>, retention_bits: u32) -> (store: ParameterStore)
        requires
            params@.len() == FSRS_PARAM_LEN,
        ensures
            store.params@ == params@,
            store.retention_bits == retention_bits,
            store.wf(),
    {
        ParameterStore { params, retention_bits }
    }

    /// The current parameter vector.
    pub fn current_params(&self) -> (params: Vec<u32>)
        ensures
            params@ == self.params@,
    {
        copy_vec(&self.params)
    }

    /// The current desired retention.
    pub fn desired_retention_bits(&self) -> (retention: u32)
        ensures
            retention == self.retention_bits,
    {
        self.retention_bits
    }

    /// Replaces the desired retention; the parameters stay as they are.
    pub fn set_desired_retention(&mut self, retention_bits: u32)
        ensures
            final(self).retention_bits == retention_bits,
            final(self).params == old(self).params,
    {
        self.retention_bits = retention_bits;
    }

    /// Applies a trained parameter vector element-wise, up to the overlap
    /// of the two lengths: a shorter trained vector leaves the tail
    /// unchanged, a longer one has its tail ignored, and an empty one
    /// changes nothing.  The retention stays as it is.
    pub fn apply_trained(&mut self, trained: &Vec<u32>)
        ensures
            final(self).retention_bits == old(self).retention_bits,
            final(self).params@.len() == old(self).params@.len(),
            forall|i: int|
                0 <= i < old(self).params@.len() ==> final(self).params@[i] == if i
                    < trained@.len() {
                    trained@[i]
                } else {
                    old(self).params@[i]
                },
            old(self).wf() ==> final(self).wf(),
    {
        let n = if trained.len() < self.params.len() {
            trained.len()
        } else {
            self.params.len()
        };
        let mut i: usize = 0;
        while i < n
            invariant
                n <= trained@.len(),
                n <= self.params@.len(),
                0 <= i <= n,
                self.params@.len() == old(self).params@.len(),
                self.retention_bits == old(self).retention_bits,
                forall|k: int| 0 <= k < i ==> self.params@[k] == trained@[k],
                forall|k: int|
                    i <= k < self.params@.len() ==> self.params@[k] == old(self).params@[k],
            decreases n - i,
        {
            vstd::pervasive::VecAdditionalExecFns::set(&mut self.params, i, trained[i]);
            i += 1;
        }
    }
}

} // verus!
