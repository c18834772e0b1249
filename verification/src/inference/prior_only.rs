//! Sampling from the prior: observations are ignored.
use vstd::prelude::*;
use crate::dataset::{
    all_serializable, flatten_to_numeric_vec_only, flattened_all, not_serializable, outcomes,
    DataFile,
};
use crate::distributions::{draw_refused, is_draw, Dist, Distribution, Numerics};
use crate::inference::{Conduct, InferenceAlg};
use crate::types::{fails_with, lemma_views_push, views, RuntimeError, Val, Value};

verus! {

/// The driver that samples from the prior. `sample` draws from the
/// distribution, and so does `observe`, whatever was observed; every run is
/// recorded.
pub struct PriorOnly {
    pub results: Vec<Value>,
}

impl PriorOnly {
    /// A driver that has recorded nothing.
    pub fn new() -> (r: Self)
        ensures
            r.results@.len() == 0,
    {
        Self { results: Vec::new() }
    }
}

impl<N: Numerics> Conduct<N> for PriorOnly {
    /// The answer is a draw from `dist`, or the error of a distribution
    /// that refuses to draw. Nothing is recorded.
    open spec fn samples(
        &self,
        numerics: &N,
        dist: Dist,
        address: Option<nat>,
        answer: Result<Val, RuntimeError>,
        after: Self,
    ) -> bool {
        &&& after == *self
        &&& match answer {
            Ok(v) => dist.admits(v) && is_draw(numerics, dist, Some(v)),
            Err(_) => fails_with(answer, draw_refused()) && is_draw(numerics, dist, None),
        }
    }

    /// As for a `sample`: the observed value plays no part.
    open spec fn observes(
        &self,
        numerics: &N,
        dist: Dist,
        value: Val,
        address: Option<nat>,
        answer: Result<Val, RuntimeError>,
        after: Self,
    ) -> bool {
        self.samples(numerics, dist, address, answer, after)
    }

    /// The run's value is recorded behind those recorded so far.
    open spec fn ends(&self, numerics: &N, value: Val, after: Self) -> bool {
        views(after.results@) == views(self.results@).push(value)
    }
}

impl InferenceAlg for PriorOnly {
    open spec fn wf(&self) -> bool {
        true
    }

    open spec fn finished(&self) -> nat {
        self.results@.len()
    }

    /// A draw from `dist`. Nothing is recorded.
    fn sample<N: Numerics>(
        &mut self,
        numerics: &N,
        dist: &Distribution,
        sample_number: Option<usize>,
    ) -> (r: Result<Value, RuntimeError>)
        ensures
            final(self).results == old(self).results,
            match r {
                Ok(v) => dist@.admits(v@) && is_draw(numerics, dist@, Some(v@)),
                Err(_) => fails_with(r, draw_refused()) && is_draw(numerics, dist@, None),
            },
    {
        dist.sample(numerics)
    }

    /// A draw from `dist`: the observed value plays no part. Nothing is
    /// recorded.
    fn observe<N: Numerics>(
        &mut self,
        numerics: &N,
        dist: &Distribution,
        val: Value,
        observe_number: Option<usize>,
    ) -> (r: Result<Value, RuntimeError>)
        ensures
            final(self).results == old(self).results,
            match r {
                Ok(v) => dist@.admits(v@) && is_draw(numerics, dist@, Some(v@)),
                Err(_) => fails_with(r, draw_refused()) && is_draw(numerics, dist@, None),
            },
    {
        dist.sample(numerics)
    }

    /// Records the run's value behind those recorded so far.
    fn finish_one_evaluation<N: Numerics>(&mut self, numerics: &N, val: Value)
        ensures
            final(self).results@ == old(self).results@.push(val),
    {
        proof {
            lemma_views_push(self.results@, val);
        }
        self.results.push(val);
    }

    /// The recorded values, in the order of the runs and without weights; an
    /// error if one of them is not serializable.
    fn finalize_and_make_dataset(self) -> (r: Result<DataFile, RuntimeError>)
        ensures
            if all_serializable(views(self.results@)) {
                &&& r matches Ok(file)
                &&& !file.has_weights
                &&& outcomes(file.data@) == flattened_all(views(self.results@))
            } else {
                fails_with(r, not_serializable())
            },
    {
        let vals = flatten_to_numeric_vec_only(&self.results)?;
        Ok(DataFile { has_weights: false, data: vals })
    }
}

} // verus!
