//! The model-view-update pairing: a model value together with the
//! transition function the run loop feeds key events through.

use vstd::prelude::*;

verus! {

/// A model and its update function. The run loop around the library
/// pulls one event at a time, applies `update` to the model, and
/// re-renders. The transition function is carried as a value of a
/// caller-chosen type, typically `fn(&mut M, E) -> Option<String>`.
pub struct ModelVieUpdate<M, F> {
    pub model: M,
    pub update: F,
}

impl<M, F> ModelVieUpdate<M, F> {
    /// Pairs an initial model with its transition function.
    pub fn new(initial_model: M, update: F) -> (r: Self)
        ensures
            r.model == initial_model,
            r.update == update,
    {
        Self { model: initial_model, update }
    }
}

} // verus!
