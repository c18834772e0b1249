//! Likelihood weighting: each run is weighted by the density of what it
//! observed.
use vstd::prelude::*;
use crate::dataset::{
    all_serializable, flatten_to_numeric_vec_only, flattened, lemma_many_view, not_serializable,
    outcomes, DataFile, Outcome, ProgramResult, ResultValue,
};
use crate::distributions::{
    adds, density_refused, draw_refused, is_draw, is_log_density, Dist, Distribution, Numerics,
};
use crate::inference::{leads, lemma_leads_in_one, lemma_leads_through, Conduct, InferenceAlg};
use crate::semantics::{within_run, Event};
use crate::types::{fails_with, lemma_views_push, views, Float, RuntimeError, Val, Value};

verus! {

/// The driver for likelihood weighting. `sample` draws from the
/// distribution; `observe` adds the log-density of the observed value to the
/// run's log-weight; every run is recorded with its log-weight.
pub struct LikelihoodWeighting {
    /// The log-weight of the run so far.
    pub log_w: Float,
    /// The values of the runs that have ended.
    pub results: Vec<Value>,
    /// The log-weights of the runs that have ended.
    pub weights: Vec<Float>,
}

impl LikelihoodWeighting {
    /// A driver that has recorded nothing, at the start of a run.
    pub fn new() -> (r: Self)
        ensures
            r.wf(),
            r.log_w == Float::spec_zero(),
            r.results@.len() == 0,
            r.weights@.len() == 0,
    {
        Self { log_w: Float::zero(), results: Vec::new(), weights: Vec::new() }
    }

    /// Whether `after` is the log-weight `before` with the log-density of
    /// `v` under `d` added, under the numerics.
    pub open spec fn weighed<N: Numerics>(
        numerics: &N,
        d: Dist,
        v: Val,
        before: Float,
        after: Float,
    ) -> bool {
        exists|w: Float|
            #![trigger adds(numerics, before, w, after)]
            is_log_density(numerics, d, v, Some(w)) && adds(numerics, before, w, after)
    }

    /// The entries of the dataset: for each run the pair of its result and
    /// its log-weight.
    pub open spec fn entries(results: Seq<Value>, weights: Seq<Float>) -> Seq<Outcome> {
        Seq::new(
            results.len(),
            |i: int|
                Outcome::Many(
                    seq![flattened(results[i]@), Outcome::One(ResultValue::Float(weights[i]))],
                ),
        )
    }
}

impl<N: Numerics> Conduct<N> for LikelihoodWeighting {
    /// The answer is a draw from `dist`, or the error of a distribution
    /// that refuses to draw. The driver does not change.
    open spec fn samples(
        &self,
        numerics: &N,
        dist: Dist,
        address: Option<nat>,
        answer: Result<Val, RuntimeError>,
        after: Self,
    ) -> bool {
        &&& after == *self
        &&& match answer {
            Ok(v) => dist.admits(v) && is_draw(numerics, dist, Some(v)),
            Err(_) => fails_with(answer, draw_refused()) && is_draw(numerics, dist, None),
        }
    }

    /// The answer is the observed value, and the log-weight of the run has
    /// grown by the log-density of the value under `dist`; or it is an
    /// error, where `dist` has no density at the value or the numerics give
    /// none, and the log-weight is as it was. Nothing is recorded.
    open spec fn observes(
        &self,
        numerics: &N,
        dist: Dist,
        value: Val,
        address: Option<nat>,
        answer: Result<Val, RuntimeError>,
        after: Self,
    ) -> bool {
        &&& after.results == self.results
        &&& after.weights == self.weights
        &&& match dist.density_defined(value) {
            Ok(()) => match answer {
                Ok(v) => v == value && Self::weighed(numerics, dist, value, self.log_w, after.log_w),
                Err(_) => {
                    &&& fails_with(answer, density_refused())
                    &&& is_log_density(numerics, dist, value, None)
                    &&& after.log_w == self.log_w
                },
            },
            Err(message) => fails_with(answer, message) && after.log_w == self.log_w,
        }
    }

    /// The run's value and its log-weight are recorded behind those
    /// recorded so far, and the next run starts with a log-weight of zero.
    open spec fn ends(&self, numerics: &N, value: Val, after: Self) -> bool {
        &&& views(after.results@) == views(self.results@).push(value)
        &&& after.weights@ == self.weights@.push(self.log_w)
        &&& after.log_w == Float::spec_zero()
    }
}

impl InferenceAlg for LikelihoodWeighting {
    /// Every recorded run has its log-weight.
    open spec fn wf(&self) -> bool {
        self.results@.len() == self.weights@.len()
    }

    open spec fn finished(&self) -> nat {
        self.results@.len()
    }

    /// A draw from `dist`. The log-weight does not change, and nothing is
    /// recorded.
    fn sample<N: Numerics>(
        &mut self,
        numerics: &N,
        dist: &Distribution,
        sample_number: Option<usize>,
    ) -> (r: Result<Value, RuntimeError>)
        ensures
            *final(self) == *old(self),
            match r {
                Ok(v) => dist@.admits(v@) && is_draw(numerics, dist@, Some(v@)),
                Err(_) => fails_with(r, draw_refused()) && is_draw(numerics, dist@, None),
            },
    {
        dist.sample(numerics)
    }

    /// The observed value itself. Its log-density under `dist` is added to
    /// the run's log-weight; where `dist` has no density at the value, the
    /// error of [`Distribution::log_pdf`] comes out and nothing changes.
    fn observe<N: Numerics>(
        &mut self,
        numerics: &N,
        dist: &Distribution,
        val: Value,
        observe_number: Option<usize>,
    ) -> (r: Result<Value, RuntimeError>)
        ensures
            final(self).results == old(self).results,
            final(self).weights == old(self).weights,
            match dist@.density_defined(val@) {
                Ok(()) => match r {
                    Ok(v) => v == val && Self::weighed(
                        numerics,
                        dist@,
                        val@,
                        old(self).log_w,
                        final(self).log_w,
                    ),
                    Err(_) => {
                        &&& fails_with(r, density_refused())
                        &&& is_log_density(numerics, dist@, val@, None)
                        &&& final(self).log_w == old(self).log_w
                    },
                },
                Err(message) => fails_with(r, message) && final(self).log_w == old(self).log_w,
            },
    {
        let w = dist.log_pdf(&val, numerics)?;
        let ghost before = self.log_w;
        self.log_w = numerics.plus(self.log_w, w);
        proof {
            assert(is_log_density(numerics, dist@, val@, Some(w)) && adds(
                numerics,
                before,
                w,
                self.log_w,
            ));
        }
        Ok(val)
    }

    /// Records the run's value and its log-weight, and starts the next run
    /// with a log-weight of zero.
    fn finish_one_evaluation<N: Numerics>(&mut self, numerics: &N, val: Value)
        ensures
            final(self).results@ == old(self).results@.push(val),
            final(self).weights@ == old(self).weights@.push(old(self).log_w),
            final(self).log_w == Float::spec_zero(),
    {
        let log_w = self.log_w;
        self.log_w = Float::zero();
        proof {
            lemma_views_push(self.results@, val);
        }
        self.results.push(val);
        self.weights.push(log_w);
    }

    /// The recorded runs in their order, each as the pair of its result and
    /// its log-weight; an error if one of the values is not serializable.
    fn finalize_and_make_dataset(self) -> (r: Result<DataFile, RuntimeError>)
        ensures
            if all_serializable(views(self.results@)) {
                &&& r matches Ok(file)
                &&& file.has_weights
                &&& outcomes(file.data@) == Self::entries(self.results@, self.weights@)
            } else {
                fails_with(r, not_serializable())
            },
    {
        let mut vals = flatten_to_numeric_vec_only(&self.results)?;
        let ghost flat = outcomes(vals@);
        proof {
            let all = crate::dataset::flattened_all(views(self.results@));
            assert(all.len() == self.results@.len());
        }
        let mut data: Vec<ProgramResult> = Vec::new();
        let n = vals.len();
        let mut i: usize = n;
        // The results are taken from the back, so that none is copied.
        while i > 0
            invariant
                i <= n,
                n == self.results@.len(),
                n == self.weights@.len(),
                vals.len() == i,
                data.len() == n - i,
                flat.len() == n,
                forall|k: int| 0 <= k < n ==> flat[k] == flattened(#[trigger] self.results@[k]@),
                forall|k: int| 0 <= k < i ==> (#[trigger] vals@[k])@ == flat[k],
                forall|k: int|
                    0 <= k < n - i ==> (#[trigger] data@[k])@ == Self::entries(
                        self.results@,
                        self.weights@,
                    )[n - 1 - k],
            decreases i,
        {
            i -= 1;
            let val = match vals.pop() {
                Some(v) => v,
                None => ProgramResult::One(ResultValue::Boolean(false)),
            };
            let mut pair: Vec<ProgramResult> = Vec::new();
            pair.push(val);
            pair.push(ProgramResult::One(ResultValue::Float(self.weights[i])));
            proof {
                lemma_many_view(pair);
                assert(outcomes(pair@) =~= seq![
                    flattened(self.results@[i as int]@),
                    Outcome::One(ResultValue::Float(self.weights@[i as int])),
                ]);
            }
            data.push(ProgramResult::Many(pair));
        }
        let mut ordered: Vec<ProgramResult> = Vec::new();
        while data.len() > 0
            invariant
                n == self.results@.len(),
                n == self.weights@.len(),
                data.len() + ordered.len() == n,
                forall|k: int|
                    0 <= k < data.len() ==> (#[trigger] data@[k])@ == Self::entries(
                        self.results@,
                        self.weights@,
                    )[n - 1 - k],
                forall|k: int|
                    0 <= k < ordered.len() ==> (#[trigger] ordered@[k])@ == Self::entries(
                        self.results@,
                        self.weights@,
                    )[k],
            decreases data.len(),
        {
            match data.pop() {
                Some(entry) => {
                    ordered.push(entry);
                },
                None => {},
            }
        }
        Ok(DataFile { has_weights: true, data: ordered })
    }
}

/// The observations among the events: the distribution and the value of
/// every `observe` that the driver answered with a value, in their order.
pub open spec fn observations(events: Seq<Event>) -> Seq<(Dist, Val)>
    decreases events.len(),
{
    if events.len() == 0 {
        Seq::empty()
    } else {
        let before = observations(events.drop_last());
        match events.last() {
            Event::Observe { dist, value, address, answer } => if answer is Ok {
                before.push((dist, value))
            } else {
                before
            },
            _ => before,
        }
    }
}

/// Whether `weights` holds the log-weight of a run before and after each of
/// the observations `observed`, and `densities` the log-densities of the
/// observations: each observation adds its log-density to the log-weight,
/// under the numerics.
pub open spec fn is_running_weight<N: Numerics>(
    numerics: &N,
    observed: Seq<(Dist, Val)>,
    densities: Seq<Float>,
    weights: Seq<Float>,
) -> bool {
    &&& densities.len() == observed.len()
    &&& weights.len() == observed.len() + 1
    &&& forall|k: int|
        0 <= k < observed.len() ==> is_log_density(
            numerics,
            observed[k].0,
            observed[k].1,
            Some(#[trigger] densities[k]),
        )
    &&& forall|k: int|
        0 <= k < observed.len() ==> adds(
            numerics,
            #[trigger] weights[k],
            densities[k],
            weights[k + 1],
        )
}

/// The log-weight of a run is the sum of the log-densities of what it has
/// observed, added in order under the numerics: for events within a run
/// that lead the driver from `before` to `after`, the result holds the
/// log-densities of the observations among the events and the running sums
/// of them, from the log-weight of `before` to that of `after`. A run
/// starts with a log-weight of zero.
pub proof fn weight_of_a_run_is_sum_of_densities<N: Numerics>(
    numerics: &N,
    before: LikelihoodWeighting,
    events: Seq<Event>,
    after: LikelihoodWeighting,
) -> (sums: (Seq<Float>, Seq<Float>))
    requires
        leads(numerics, before, events, after),
        within_run(events),
    ensures
        is_running_weight(numerics, observations(events), sums.0, sums.1),
        sums.1[0] == before.log_w,
        sums.1.last() == after.log_w,
    decreases events.len(),
{
    if events.len() == 0 {
        assert(events =~= Seq::<Event>::empty());
        (Seq::empty(), seq![before.log_w])
    } else {
        let head = events.drop_last();
        let last = events.last();
        assert(events =~= head + seq![last]);
        let between = lemma_leads_through(numerics, before, head, seq![last], after);
        let (densities, weights) = weight_of_a_run_is_sum_of_densities(
            numerics,
            before,
            head,
            between,
        );
        lemma_leads_in_one(numerics, between, last, after);
        match last {
            Event::Observe { dist, value, address, answer } => {
                if answer is Ok {
                    let w = choose|w: Float|
                        is_log_density(numerics, dist, value, Some(w)) && #[trigger] adds(
                            numerics,
                            between.log_w,
                            w,
                            after.log_w,
                        );
                    let more_densities = densities.push(w);
                    let more_weights = weights.push(after.log_w);
                    (more_densities, more_weights)
                } else {
                    (densities, weights)
                }
            },
            _ => (densities, weights),
        }
    }
}

/// Between the ends of two runs the log-weight is the sum of the
/// log-densities of what was observed since the first of them: the driver
/// `started` a run when the run before ended, and the events since then
/// led it to `now`; the result holds the log-densities of the observations
/// among the events and the running sums of them, from zero to the
/// log-weight of `now`.
pub proof fn weight_since_the_last_run<N: Numerics>(
    numerics: &N,
    ended: LikelihoodWeighting,
    value: Val,
    started: LikelihoodWeighting,
    events: Seq<Event>,
    now: LikelihoodWeighting,
) -> (sums: (Seq<Float>, Seq<Float>))
    requires
        ended.ends(numerics, value, started),
        leads(numerics, started, events, now),
        within_run(events),
    ensures
        is_running_weight(numerics, observations(events), sums.0, sums.1),
        sums.1[0] == Float::spec_zero(),
        sums.1.last() == now.log_w,
{
    weight_of_a_run_is_sum_of_densities(numerics, started, events, now)
}

} // verus!
