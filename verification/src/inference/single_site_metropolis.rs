//! Single-site Metropolis-Hastings: each run redraws one random choice of
//! the last accepted run and reuses the others.
use rand::Rng;
use vstd::prelude::*;
use crate::dataset::{
    all_serializable, flatten_to_numeric_vec_only, flattened_all, not_serializable, outcomes,
    DataFile,
};
use crate::distributions::{
    adds, density_fails, draw_refused, draws_uniform, is_draw, is_exp, is_less, is_less_eq, is_ln,
    is_log_density, subtracts, widens_to, Dist, Distribution, Numerics,
};
use crate::inference::trace::{Trace, VariableAddress};
use crate::inference::{leads, lemma_leads_in_one, lemma_leads_through, Conduct, InferenceAlg};
use crate::semantics::{within_run, Event};
use crate::types::{
    fail, fails_with, result_model, views, Float, Number, RuntimeError, Val, Value,
};

verus! {

/// What is kept of one run: its trace, the sum of the log-densities of the
/// choices that it reused, and the sum of the log-densities of what it
/// observed.
#[derive(Debug, PartialEq)]
pub struct RunMemory {
    pub trace: Trace,
    pub reused_log_weight: Float,
    pub observed_log_weight: Float,
}

impl RunMemory {
    /// Whether the memory is that of a run that has made no call.
    pub open spec fn is_fresh(&self) -> bool {
        &&& self.trace.entries@.len() == 0
        &&& self.reused_log_weight == Float::spec_zero()
        &&& self.observed_log_weight == Float::spec_zero()
    }

    /// The memory of a run that has made no call.
    pub fn new() -> (r: RunMemory)
        ensures
            r.is_fresh(),
            r.trace.wf(),
    {
        RunMemory {
            trace: Trace::new(),
            reused_log_weight: Float::zero(),
            observed_log_weight: Float::zero(),
        }
    }
}

/// The driver for single-site Metropolis-Hastings.
#[derive(Debug, PartialEq)]
pub struct SingleSiteMetropolis {
    /// Of the accepted runs, every `skip`-th is recorded.
    pub skip: usize,
    /// The accepted runs since the last recorded one.
    pub count: usize,
    /// The last accepted run; none before the first run has ended.
    pub last: Option<RunMemory>,
    /// The run that is under way.
    pub proposal: RunMemory,
    /// Whether the run under way has passed the proposal site.
    pub reached_proposal_site: bool,
    /// The choice of the last accepted run that the run under way redraws.
    pub proposal_site: VariableAddress,
    /// The number of `sample` and `observe` calls of the run under way.
    pub var_counter: usize,
    /// The values of the recorded runs.
    pub samples: Vec<Value>,
    /// The number of runs that have ended, as far as the machine can count.
    pub runs: usize,
}

/// A call that a run makes to the driver: a `sample` at a node's address, or
/// an `observe`.
pub enum Call {
    Sample(usize),
    Observe,
}

/// What the control flow of a run alone decides of the driver's state: the
/// number of calls so far, and the addresses in the run's trace.
pub struct Skeleton {
    pub var_counter: usize,
    pub keys: Set<VariableAddress>,
}

/// The skeleton at the start of a run.
pub open spec fn fresh_skeleton() -> Skeleton {
    Skeleton { var_counter: 0, keys: Set::empty() }
}

/// The skeleton after one more call.
pub open spec fn after_call(s: Skeleton, call: Call) -> Skeleton {
    match call {
        Call::Sample(address) => Skeleton {
            var_counter: (s.var_counter + 1) as usize,
            keys: s.keys.insert((address, s.var_counter)),
        },
        Call::Observe => Skeleton { var_counter: (s.var_counter + 1) as usize, keys: s.keys },
    }
}

/// The skeleton after the calls, made in order.
pub open spec fn after_calls(s: Skeleton, calls: Seq<Call>) -> Skeleton
    decreases calls.len(),
{
    if calls.len() == 0 {
        s
    } else {
        after_call(after_calls(s, calls.drop_last()), calls.last())
    }
}

/// The addresses in the trace of a run that made these calls: for each
/// `sample` among them, the node's address with the number of the calls
/// before it.
pub open spec fn run_keys(calls: Seq<Call>) -> Set<VariableAddress> {
    Set::new(
        |key: VariableAddress| 0 <= key.1 < calls.len() && calls[key.1 as int] == Call::Sample(key.0),
    )
}

/// The message of the error for a `sample` node without an address.
pub open spec fn no_address() -> Seq<char> {
    "`sample` has no address: the address pass has not run."@
}

/// The message of the error for a run with more calls than the machine can
/// count.
pub open spec fn too_many_calls() -> Seq<char> {
    "The run has made too many random choices to count."@
}

/// A number below `n`, drawn by `rand::thread_rng().gen_range(0..n)`: the
/// range must not be empty, and the number lies in it. Which number comes is
/// not said.
#[verifier::external_body]
fn random_below(n: usize) -> (r: usize)
    requires
        n > 0,
    ensures
        r < n,
{
    rand::thread_rng().gen_range(0..n)
}

/// The intermediate results of an acceptance decision, in the order in
/// which the numerics compute them.
pub struct Acceptance {
    /// The size of the last accepted trace.
    pub prev_size: Float,
    /// The size of the trace of the run under way.
    pub proposal_size: Float,
    /// The logarithm of `prev_size`.
    pub log_prev_size: Float,
    /// The logarithm of `proposal_size`.
    pub log_proposal_size: Float,
    /// `log_prev_size` plus the run's observed log-weight.
    pub with_observed: Float,
    /// `with_observed` plus the run's reused log-weight.
    pub with_reused: Float,
    /// `with_reused` minus `log_proposal_size`.
    pub less_size: Float,
    /// `less_size` minus the last accepted run's observed log-weight.
    pub less_observed: Float,
    /// `less_observed` minus the last accepted run's reused log-weight: the
    /// logarithm of the acceptance ratio.
    pub log_ratio: Float,
    /// The acceptance ratio.
    pub ratio: Float,
    /// Whether one is at most the ratio.
    pub at_least_one: bool,
    /// The uniform draw, made where the ratio is below one.
    pub draw: Float,
}

/// The size as an integer for the numerics; a size beyond `i64` counts as
/// the largest `i64`.
pub open spec fn size_model(n: nat) -> i64 {
    if n <= i64::MAX {
        n as i64
    } else {
        i64::MAX
    }
}

/// The size as an integer for the numerics.
fn size_as_integer(n: usize) -> (r: i64)
    ensures
        r == size_model(n as nat),
{
    if n as u64 <= i64::MAX as u64 {
        n as i64
    } else {
        i64::MAX
    }
}

impl SingleSiteMetropolis {
    /// A driver before its first run, which records every `skip`-th accepted
    /// run.
    pub fn new(skip: usize) -> (r: Self)
        ensures
            r.wf(),
            r.skip == skip,
            r.count == 0,
            r.last is None,
            r.proposal.is_fresh(),
            !r.reached_proposal_site,
            r.proposal_site == (0usize, 0usize),
            r.var_counter == 0,
            r.samples@.len() == 0,
            r.runs == 0,
            r.skeleton() == fresh_skeleton(),
    {
        let r = Self {
            skip,
            count: 0,
            last: None,
            proposal: RunMemory::new(),
            reached_proposal_site: false,
            proposal_site: (0, 0),
            var_counter: 0,
            samples: Vec::new(),
            runs: 0,
        };
        assert(r.proposal.trace@.dom() =~= Set::empty());
        r
    }

    /// The driver's skeleton.
    pub open spec fn skeleton(&self) -> Skeleton {
        Skeleton { var_counter: self.var_counter, keys: self.proposal.trace@.dom() }
    }

    /// Whether `key` is the choice that the run under way redraws.
    pub open spec fn at_proposal_site(&self, key: VariableAddress) -> bool {
        self.last is Some && key == self.proposal_site
    }

    /// Whether the run under way takes the choice at `key` from the last
    /// accepted run: that run made it, and it is not the one redrawn.
    pub open spec fn reusable(&self, key: VariableAddress) -> bool {
        &&& self.last matches Some(last)
        &&& key != self.proposal_site
        &&& last.trace@.dom().contains(key)
    }

    /// Whether `new` is the driver `old` with all unchanged but the run
    /// under way, its call count and the mark of the proposal site.
    pub open spec fn same_chain(old: Self, new: Self) -> bool {
        &&& new.skip == old.skip
        &&& new.count == old.count
        &&& new.last == old.last
        &&& new.proposal_site == old.proposal_site
        &&& new.samples == old.samples
        &&& new.runs == old.runs
    }

    /// How `sample` at the node `address` changes the driver `old` into
    /// `new` and gives `v`, under the numerics.
    ///
    /// The trace gets the value and its log-density under the node's
    /// address and the number of the calls before. A reusable choice keeps
    /// the value of the last accepted run; it keeps its log-density too
    /// until the run has passed the proposal site, and has it computed anew
    /// after; the reused log-weight grows by the log-density. Every other
    /// choice is a draw from the distribution, with the log-density of what
    /// was drawn.
    pub open spec fn sampled<N: Numerics>(
        numerics: &N,
        old: Self,
        address: usize,
        dist: Dist,
        v: Val,
        new: Self,
    ) -> bool {
        let key = (address, old.var_counter);
        let w = new.proposal.trace@[key].1;
        &&& Self::same_chain(old, new)
        &&& old.var_counter < usize::MAX
        &&& new.var_counter == old.var_counter + 1
        &&& new.proposal.observed_log_weight == old.proposal.observed_log_weight
        &&& new.proposal.trace@.dom().contains(key)
        &&& new.proposal.trace@ == old.proposal.trace@.insert(key, (v, w))
        &&& new.reached_proposal_site == (old.reached_proposal_site || old.at_proposal_site(key))
        &&& if old.reusable(key) {
            &&& v == old.last->Some_0.trace@[key].0
            &&& if old.reached_proposal_site {
                is_log_density(numerics, dist, v, Some(w))
            } else {
                w == old.last->Some_0.trace@[key].1
            }
            &&& adds(numerics, old.proposal.reused_log_weight, w, new.proposal.reused_log_weight)
        } else {
            &&& dist.admits(v)
            &&& is_draw(numerics, dist, Some(v))
            &&& is_log_density(numerics, dist, v, Some(w))
            &&& new.proposal.reused_log_weight == old.proposal.reused_log_weight
        }
    }

    /// Whether `answer` is the error that `sample` at the node `address`
    /// gives the driver `old` where it gives no value. An error comes only
    /// for a call beyond what the machine can count, or where the
    /// distribution or the numerics refuse what the call needs of them:
    ///
    /// - a reusable choice fails only after the proposal site, with the
    ///   error of the log-density of the reused value;
    /// - every other choice fails with the error of a refused draw, or else
    ///   with the error of the log-density of the value that was drawn.
    pub open spec fn sample_fails<N: Numerics>(
        numerics: &N,
        old: Self,
        address: usize,
        dist: Dist,
        answer: Result<Val, RuntimeError>,
    ) -> bool {
        let key = (address, old.var_counter);
        if old.var_counter == usize::MAX {
            fails_with(answer, too_many_calls())
        } else if old.reusable(key) {
            &&& old.reached_proposal_site
            &&& density_fails(numerics, dist, old.last->Some_0.trace@[key].0, answer)
        } else {
            ||| fails_with(answer, draw_refused()) && is_draw(numerics, dist, None)
            ||| exists|v: Val|
                #![trigger is_draw(numerics, dist, Some(v))]
                {
                    &&& dist.admits(v)
                    &&& is_draw(numerics, dist, Some(v))
                    &&& density_fails(numerics, dist, v, answer)
                }
        }
    }

    /// Whether `answer` is the error that `observe` of `v` under `dist`
    /// gives the driver `old` where it gives no value: the error of a call
    /// beyond what the machine can count, or else the error of the
    /// log-density of `v`.
    pub open spec fn observe_fails<N: Numerics>(
        numerics: &N,
        old: Self,
        dist: Dist,
        v: Val,
        answer: Result<Val, RuntimeError>,
    ) -> bool {
        if old.var_counter == usize::MAX {
            fails_with(answer, too_many_calls())
        } else {
            density_fails(numerics, dist, v, answer)
        }
    }

    /// How `observe` of `v` under `dist` changes the driver `old` into
    /// `new`, under the numerics: the call is counted, and the observed
    /// log-weight grows by the log-density of `v`.
    pub open spec fn observed<N: Numerics>(numerics: &N, old: Self, dist: Dist, v: Val, new: Self) -> bool {
        &&& Self::same_chain(old, new)
        &&& old.var_counter < usize::MAX
        &&& new.var_counter == old.var_counter + 1
        &&& new.proposal.trace == old.proposal.trace
        &&& new.proposal.reused_log_weight == old.proposal.reused_log_weight
        &&& new.reached_proposal_site == old.reached_proposal_site
        &&& exists|w: Float|
            #![trigger adds(numerics, old.proposal.observed_log_weight, w, new.proposal.observed_log_weight)]
            is_log_density(numerics, dist, v, Some(w)) && adds(
                numerics,
                old.proposal.observed_log_weight,
                w,
                new.proposal.observed_log_weight,
            )
    }

    /// Whether the numerics decide `accept` for a run with the memory
    /// `proposal` after an accepted run with the memory `last`, by the
    /// intermediate results `work`.
    ///
    /// The logarithm of the acceptance ratio is the logarithm of the size of
    /// the last accepted trace, plus the run's observed log-weight, plus its
    /// reused log-weight, minus the logarithm of the size of the run's
    /// trace, minus the observed and the reused log-weight of the last
    /// accepted run. The run is accepted where one is at most the ratio, and
    /// otherwise where a uniform draw from `[0, 1)` is below the ratio.
    pub open spec fn accepts<N: Numerics>(
        numerics: &N,
        last: RunMemory,
        proposal: RunMemory,
        work: Acceptance,
        accept: bool,
    ) -> bool {
        &&& widens_to(numerics, Number::Integer(size_model(last.trace.entries@.len())), work.prev_size)
        &&& widens_to(
            numerics,
            Number::Integer(size_model(proposal.trace.entries@.len())),
            work.proposal_size,
        )
        &&& is_ln(numerics, work.prev_size, work.log_prev_size)
        &&& is_ln(numerics, work.proposal_size, work.log_proposal_size)
        &&& adds(numerics, work.log_prev_size, proposal.observed_log_weight, work.with_observed)
        &&& adds(numerics, work.with_observed, proposal.reused_log_weight, work.with_reused)
        &&& subtracts(numerics, work.with_reused, work.log_proposal_size, work.less_size)
        &&& subtracts(numerics, work.less_size, last.observed_log_weight, work.less_observed)
        &&& subtracts(numerics, work.less_observed, last.reused_log_weight, work.log_ratio)
        &&& is_exp(numerics, work.log_ratio, work.ratio)
        &&& is_less_eq(numerics, Float::spec_one(), work.ratio, work.at_least_one)
        &&& if work.at_least_one {
            accept
        } else {
            draws_uniform(numerics, work.draw) && is_less(numerics, work.draw, work.ratio, accept)
        }
    }

    /// Whether `accept` is a decision on the run under way under the
    /// numerics: the first run is accepted, and a later one as [`accepts`]
    /// says.
    pub open spec fn decided<N: Numerics>(numerics: &N, driver: Self, accept: bool) -> bool {
        match driver.last {
            None => accept,
            Some(last) => exists|work: Acceptance|
                #![trigger Self::accepts(numerics, last, driver.proposal, work, accept)]
                Self::accepts(numerics, last, driver.proposal, work, accept),
        }
    }

    /// How the end of a run that gave `val` changes the driver `old` into
    /// `new`, where `accept` says whether the run is accepted and
    /// `site_index` which choice the next run redraws.
    ///
    /// An accepted run becomes the last accepted run and is counted; the
    /// `skip`-th counted run is recorded and the count starts again. A
    /// rejected run leaves no mark. Either way the next run starts with
    /// nothing remembered and no call made, and it redraws the choice that
    /// stands at `site_index` in the last accepted run's trace; if none
    /// stands there, the proposal site stays.
    pub open spec fn concluded(old: Self, accept: bool, site_index: usize, val: Value, new: Self) -> bool {
        &&& new.skip == old.skip
        &&& new.var_counter == 0
        &&& !new.reached_proposal_site
        &&& new.proposal.is_fresh()
        &&& new.runs == if old.runs < usize::MAX {
            (old.runs + 1) as usize
        } else {
            old.runs
        }
        &&& if accept {
            &&& new.last == Some(old.proposal)
            &&& if old.count + 1 >= old.skip {
                new.count == 0 && new.samples@ == old.samples@.push(val)
            } else {
                new.count == old.count + 1 && new.samples@ == old.samples@
            }
        } else {
            &&& new.last == old.last
            &&& new.count == old.count
            &&& new.samples@ == old.samples@
        }
        &&& match new.last {
            Some(last) => if site_index < last.trace.entries@.len() {
                new.proposal_site == last.trace.entries@[site_index as int].address
            } else {
                new.proposal_site == old.proposal_site
            },
            None => new.proposal_site == old.proposal_site,
        }
    }

    /// Whether the run under way is accepted.
    ///
    /// The first run is. A later one is accepted if its acceptance ratio is
    /// at least one, or above a uniform draw from `[0, 1)`; the logarithm of
    /// the ratio is the logarithm of the last accepted trace's size, plus the
    /// run's observed and reused log-weights, minus the logarithm of the
    /// run's trace's size, minus the last accepted run's observed and reused
    /// log-weights. The numerics compute all of it.
    pub fn decide<N: Numerics>(&self, numerics: &N) -> (accept: bool)
        ensures
            Self::decided(numerics, *self, accept),
            self.last is None ==> accept,
    {
        match &self.last {
            None => true,
            Some(last) => {
                let proposal = &self.proposal;
                let prev_size = numerics.from_int(size_as_integer(last.trace.len()));
                let proposal_size = numerics.from_int(size_as_integer(proposal.trace.len()));
                let log_prev_size = numerics.ln(prev_size);
                let log_proposal_size = numerics.ln(proposal_size);
                let with_observed = numerics.plus(log_prev_size, proposal.observed_log_weight);
                let with_reused = numerics.plus(with_observed, proposal.reused_log_weight);
                let less_size = numerics.minus(with_reused, log_proposal_size);
                let less_observed = numerics.minus(less_size, last.observed_log_weight);
                let log_ratio = numerics.minus(less_observed, last.reused_log_weight);
                let ratio = numerics.exp(log_ratio);
                let at_least_one = numerics.less_eq(Float::one(), ratio);
                let ghost mut work = Acceptance {
                    prev_size,
                    proposal_size,
                    log_prev_size,
                    log_proposal_size,
                    with_observed,
                    with_reused,
                    less_size,
                    less_observed,
                    log_ratio,
                    ratio,
                    at_least_one,
                    draw: Float::spec_zero(),
                };
                if at_least_one {
                    proof {
                        assert(Self::accepts(numerics, *last, self.proposal, work, true));
                    }
                    true
                } else {
                    let draw = numerics.draw_uniform();
                    let accept = numerics.less(draw, ratio);
                    proof {
                        work.draw = draw;
                        assert(Self::accepts(numerics, *last, self.proposal, work, accept));
                    }
                    accept
                }
            },
        }
    }

    /// Ends the run under way, which gave `val`, with the decisions taken:
    /// whether it is accepted, and which choice the next run redraws.
    pub fn conclude(&mut self, accept: bool, site_index: usize, val: Value)
        requires
            old(self).wf(),
        ensures
            final(self).wf(),
            Self::concluded(*old(self), accept, site_index, val, *final(self)),
            final(self).skeleton() == fresh_skeleton(),
    {
        let mut prev_proposal = RunMemory::new();
        core::mem::swap(&mut self.proposal, &mut prev_proposal);
        if accept {
            // The count stays below `skip`, so it cannot overflow.
            self.count = self.count + 1;
            if self.count >= self.skip {
                self.count = 0;
                self.samples.push(val);
            }
            self.last = Some(prev_proposal);
        }
        match &self.last {
            Some(last) => {
                if site_index < last.trace.len() {
                    self.proposal_site = last.trace.key_at(site_index);
                }
            },
            None => {},
        }
        self.reached_proposal_site = false;
        self.var_counter = 0;
        if self.runs < usize::MAX {
            self.runs = self.runs + 1;
        }
        proof {
            assert(self.proposal.trace@.dom() =~= Set::empty());
        }
    }

    /// The number of choices of the run that becomes the last accepted one
    /// if the run under way is accepted or not.
    fn next_trace_len(&self, accept: bool) -> (n: usize)
        ensures
            accept ==> n == self.proposal.trace.entries@.len(),
            !accept ==> match self.last {
                Some(last) => n == last.trace.entries@.len(),
                None => n == 0,
            },
    {
        if accept {
            self.proposal.trace.len()
        } else {
            match &self.last {
                Some(last) => last.trace.len(),
                None => 0,
            }
        }
    }
}

impl<N: Numerics> Conduct<N> for SingleSiteMetropolis {
    /// The answer is the value of the choice, and the driver has put it in
    /// the run's trace as [`SingleSiteMetropolis::sampled`] says; or it is
    /// an error, that of a node without an address or the one that
    /// [`SingleSiteMetropolis::sample_fails`] names, and the driver is as it
    /// was.
    open spec fn samples(
        &self,
        numerics: &N,
        dist: Dist,
        address: Option<nat>,
        answer: Result<Val, RuntimeError>,
        after: Self,
    ) -> bool {
        match address {
            None => fails_with(answer, no_address()) && after == *self,
            Some(node) => match answer {
                Ok(v) => {
                    &&& node <= usize::MAX
                    &&& Self::sampled(numerics, *self, node as usize, dist, v, after)
                    &&& after.skeleton() == after_call(
                        self.skeleton(),
                        Call::Sample(node as usize),
                    )
                },
                Err(_) => {
                    &&& after == *self
                    &&& node <= usize::MAX
                    &&& Self::sample_fails(numerics, *self, node as usize, dist, answer)
                },
            },
        }
    }

    /// The answer is the observed value, and the driver has taken its
    /// log-density in as [`SingleSiteMetropolis::observed`] says; or it is
    /// the error that [`SingleSiteMetropolis::observe_fails`] names, and the
    /// driver is as it was.
    open spec fn observes(
        &self,
        numerics: &N,
        dist: Dist,
        value: Val,
        address: Option<nat>,
        answer: Result<Val, RuntimeError>,
        after: Self,
    ) -> bool {
        match answer {
            Ok(v) => {
                &&& v == value
                &&& dist.density_defined(value) is Ok
                &&& Self::observed(numerics, *self, dist, value, after)
                &&& after.skeleton() == after_call(self.skeleton(), Call::Observe)
            },
            Err(_) => {
                &&& after == *self
                &&& Self::observe_fails(numerics, *self, dist, value, answer)
            },
        }
    }

    /// The run is accepted or rejected as the numerics decide, and the
    /// driver goes on as [`SingleSiteMetropolis::concluded`] says, with some
    /// choice of the trace that is then the last accepted one for the next
    /// run to redraw.
    open spec fn ends(&self, numerics: &N, value: Val, after: Self) -> bool {
        exists|accept: bool, site_index: usize, val: Value|
            {
                &&& val@ == value
                &&& Self::decided(numerics, *self, accept)
                &&& #[trigger] Self::concluded(*self, accept, site_index, val, after)
                &&& after.last matches Some(last) ==> last.trace.entries@.len() > 0 ==> site_index
                    < last.trace.entries@.len()
            }
    }
}

impl InferenceAlg for SingleSiteMetropolis {
    /// The traces are well formed, and the count of accepted runs stays
    /// below `skip`.
    open spec fn wf(&self) -> bool {
        &&& self.proposal.trace.wf()
        &&& self.last matches Some(last) ==> last.trace.wf()
        &&& self.count == 0 || self.count < self.skip
    }

    open spec fn finished(&self) -> nat {
        self.runs as nat
    }

    /// The value of the `sample` at the node `sample_number`, which the
    /// run's trace then holds under the node's address and the number of the
    /// calls before.
    ///
    /// A choice that the last accepted run made, and that is not the one
    /// redrawn, keeps its value; it keeps its log-density too until the run
    /// has passed the proposal site, and the reused log-weight grows by the
    /// log-density. Every other choice is a draw from `dist`. A node without
    /// an address and a call beyond what the machine can count are errors.
    /// No other error comes but where the distribution or the numerics
    /// refuse the draw or the log-density that the call needs, as
    /// [`SingleSiteMetropolis::sample_fails`] says; an error changes
    /// nothing.
    fn sample<N: Numerics>(
        &mut self,
        numerics: &N,
        dist: &Distribution,
        sample_number: Option<usize>,
    ) -> (r: Result<Value, RuntimeError>)
        ensures
            match sample_number {
                None => fails_with(r, no_address()),
                Some(address) => match r {
                    Ok(v) => {
                        &&& Self::sampled(numerics, *old(self), address, dist@, v@, *final(self))
                        &&& final(self).skeleton() == after_call(
                            old(self).skeleton(),
                            Call::Sample(address),
                        )
                    },
                    Err(_) => Self::sample_fails(
                        numerics,
                        *old(self),
                        address,
                        dist@,
                        result_model(r),
                    ),
                },
            },
            old(self).var_counter == usize::MAX && sample_number is Some ==> fails_with(
                r,
                too_many_calls(),
            ),
            r is Err ==> *final(self) == *old(self),
    {
        let address = match sample_number {
            Some(address) => address,
            None => {
                return fail("`sample` has no address: the address pass has not run.");
            },
        };
        if self.var_counter == usize::MAX {
            return fail("The run has made too many random choices to count.");
        }
        let key = (address, self.var_counter);
        let at_site = self.last.is_some() && key.0 == self.proposal_site.0 && key.1
            == self.proposal_site.1;
        let mut reused: Option<(Value, Float)> = None;
        if !at_site {
            match &self.last {
                Some(last) => match last.trace.get(key) {
                    Some(entry) => {
                        reused = Some((entry.value.clone(), entry.log_weight));
                    },
                    None => {},
                },
                None => {},
            }
        }
        let (val, log_weight, is_reused) = match reused {
            Some((val, stored)) => {
                let log_weight = if self.reached_proposal_site {
                    dist.log_pdf(&val, numerics)?
                } else {
                    stored
                };
                (val, log_weight, true)
            },
            None => {
                let val = dist.sample(numerics)?;
                let log_weight = dist.log_pdf(&val, numerics)?;
                (val, log_weight, false)
            },
        };
        if is_reused {
            self.proposal.reused_log_weight = numerics.plus(
                self.proposal.reused_log_weight,
                log_weight,
            );
        }
        if at_site {
            self.reached_proposal_site = true;
        }
        self.proposal.trace.insert(key, val.clone(), log_weight);
        self.var_counter = self.var_counter + 1;
        Ok(val)
    }

    /// The observed value itself. Its log-density under `dist` is added to
    /// the run's observed log-weight, and the call is counted. A call beyond
    /// what the machine can count is an error. No other error comes but the
    /// one of [`Distribution::log_pdf`], where `dist` has no density at the
    /// value or the numerics refuse it; an error changes nothing.
    fn observe<N: Numerics>(
        &mut self,
        numerics: &N,
        dist: &Distribution,
        val: Value,
        observe_number: Option<usize>,
    ) -> (r: Result<Value, RuntimeError>)
        ensures
            match r {
                Ok(v) => {
                    &&& v == val
                    &&& dist@.density_defined(val@) is Ok
                    &&& Self::observed(numerics, *old(self), dist@, val@, *final(self))
                    &&& final(self).skeleton() == after_call(old(self).skeleton(), Call::Observe)
                },
                Err(_) => {
                    &&& *final(self) == *old(self)
                    &&& Self::observe_fails(numerics, *old(self), dist@, val@, result_model(r))
                },
            },
            old(self).var_counter == usize::MAX ==> fails_with(r, too_many_calls()),
            old(self).var_counter < usize::MAX ==> (dist@.density_defined(val@) matches Err(
                message,
            ) ==> fails_with(r, message)),
    {
        if self.var_counter == usize::MAX {
            return fail("The run has made too many random choices to count.");
        }
        let log_weight = dist.log_pdf(&val, numerics)?;
        let ghost before = self.proposal.observed_log_weight;
        self.proposal.observed_log_weight = numerics.plus(
            self.proposal.observed_log_weight,
            log_weight,
        );
        proof {
            assert(is_log_density(numerics, dist@, val@, Some(log_weight)) && adds(
                numerics,
                before,
                log_weight,
                self.proposal.observed_log_weight,
            ));
        }
        self.var_counter = self.var_counter + 1;
        Ok(val)
    }

    /// Ends the run under way, which gave `val`: the run is accepted or
    /// rejected as the numerics decide, and the next run's proposal site is
    /// drawn from the trace of the run that is then the last accepted one:
    /// it is one of that trace's addresses, or stays where that trace is
    /// empty. The first run is always accepted.
    fn finish_one_evaluation<N: Numerics>(&mut self, numerics: &N, val: Value)
        ensures
            exists|accept: bool, site_index: usize|
                {
                    &&& Self::decided(numerics, *old(self), accept)
                    &&& #[trigger] Self::concluded(
                        *old(self),
                        accept,
                        site_index,
                        val,
                        *final(self),
                    )
                    &&& final(self).last matches Some(last) ==> last.trace.entries@.len() > 0
                        ==> site_index < last.trace.entries@.len()
                },
            old(self).last is None ==> final(self).last == Some(old(self).proposal),
            final(self).skeleton() == fresh_skeleton(),
    {
        let accept = self.decide(numerics);
        let n = self.next_trace_len(accept);
        let site_index = if n > 0 {
            random_below(n)
        } else {
            0
        };
        self.conclude(accept, site_index, val);
    }

    /// The recorded values, in the order of the runs and without weights; an
    /// error if one of them is not serializable.
    fn finalize_and_make_dataset(self) -> (r: Result<DataFile, RuntimeError>)
        ensures
            if all_serializable(views(self.samples@)) {
                &&& r matches Ok(file)
                &&& !file.has_weights
                &&& outcomes(file.data@) == flattened_all(views(self.samples@))
            } else {
                fails_with(r, not_serializable())
            },
    {
        let vals = flatten_to_numeric_vec_only(&self.samples)?;
        Ok(DataFile { has_weights: false, data: vals })
    }
}

/// The skeleton of a run is decided by the calls that it made: after them
/// the call count is their number, and the trace holds, for each `sample`
/// among them, the node's address with the number of the calls before it.
pub proof fn lemma_run_skeleton(calls: Seq<Call>)
    requires
        calls.len() <= usize::MAX,
    ensures
        after_calls(fresh_skeleton(), calls).var_counter == calls.len(),
        after_calls(fresh_skeleton(), calls).keys == run_keys(calls),
    decreases calls.len(),
{
    if !(calls.len() == 0) {
        let p = calls.drop_last();
        lemma_run_skeleton(p);
    }
}

/// The calls among the events that the driver answered with a value: every
/// such `sample` at a node with an address, and every such `observe`, in
/// their order.
pub open spec fn calls_of(events: Seq<Event>) -> Seq<Call>
    decreases events.len(),
{
    if events.len() == 0 {
        Seq::empty()
    } else {
        let before = calls_of(events.drop_last());
        match events.last() {
            Event::Sample { dist, address: Some(node), answer } => if answer is Ok {
                before.push(Call::Sample(node as usize))
            } else {
                before
            },
            Event::Observe { dist, value, address, answer } => if answer is Ok {
                before.push(Call::Observe)
            } else {
                before
            },
            _ => before,
        }
    }
}

/// The skeleton of the driver follows the calls of a run: events within a
/// run that lead the driver from `before` to `after` leave the skeleton
/// that the calls among them make of the skeleton of `before`.
pub proof fn lemma_skeleton_follows_calls<N: Numerics>(
    numerics: &N,
    before: SingleSiteMetropolis,
    events: Seq<Event>,
    after: SingleSiteMetropolis,
)
    requires
        leads(numerics, before, events, after),
        within_run(events),
    ensures
        after.skeleton() == after_calls(before.skeleton(), calls_of(events)),
    decreases events.len(),
{
    if events.len() == 0 {
        assert(events =~= Seq::<Event>::empty());
    } else {
        let head = events.drop_last();
        let last = events.last();
        assert(events =~= head + seq![last]);
        let between = lemma_leads_through(numerics, before, head, seq![last], after);
        lemma_skeleton_follows_calls(numerics, before, head, between);
        lemma_leads_in_one(numerics, between, last, after);
        let calls = calls_of(events);
        if calls.len() > 0 && calls != calls_of(head) {
            assert(calls.drop_last() =~= calls_of(head));
        }
    }
}

/// The driver counts the calls of a run: events within a run that lead the
/// driver from `before` to `after` leave the call count of `before` with
/// the number of the calls among them added.
pub proof fn lemma_counter_counts_calls<N: Numerics>(
    numerics: &N,
    before: SingleSiteMetropolis,
    events: Seq<Event>,
    after: SingleSiteMetropolis,
)
    requires
        leads(numerics, before, events, after),
        within_run(events),
    ensures
        after.var_counter == before.var_counter + calls_of(events).len(),
    decreases events.len(),
{
    if events.len() == 0 {
        assert(events =~= Seq::<Event>::empty());
    } else {
        let head = events.drop_last();
        let last = events.last();
        assert(events =~= head + seq![last]);
        let between = lemma_leads_through(numerics, before, head, seq![last], after);
        lemma_counter_counts_calls(numerics, before, head, between);
        lemma_leads_in_one(numerics, between, last, after);
    }
}

/// Two runs that see the same control flow, which is to say that make the
/// same calls in the same order, have the same addresses in their traces,
/// whatever values they drew.
pub proof fn lemma_same_control_flow_same_keys<N: Numerics>(
    numerics: &N,
    first_start: SingleSiteMetropolis,
    first_events: Seq<Event>,
    first_end: SingleSiteMetropolis,
    second_start: SingleSiteMetropolis,
    second_events: Seq<Event>,
    second_end: SingleSiteMetropolis,
)
    requires
        leads(numerics, first_start, first_events, first_end),
        leads(numerics, second_start, second_events, second_end),
        within_run(first_events),
        within_run(second_events),
        first_start.skeleton() == fresh_skeleton(),
        second_start.skeleton() == fresh_skeleton(),
        calls_of(first_events) == calls_of(second_events),
    ensures
        first_end.proposal.trace@.dom() == second_end.proposal.trace@.dom(),
        first_end.var_counter == second_end.var_counter,
{
    lemma_skeleton_follows_calls(numerics, first_start, first_events, first_end);
    lemma_skeleton_follows_calls(numerics, second_start, second_events, second_end);
}

} // verus!
