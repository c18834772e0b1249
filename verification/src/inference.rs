//! The interface between the evaluator and an inference driver.
//!
//! [`InferenceAlg`] holds what a driver does: it answers every `sample` and
//! `observe` of a run, and is told of the end of every run. [`Conduct`]
//! holds what a driver may do at each of these calls, as relations that
//! every driver states for itself. A sequence of events is a course of the
//! driver where each event takes it from one state to the next
//! ([`leads`]); what holds of a driver after a run, or after many, is then
//! proved along the course.
use vstd::prelude::*;
use crate::ast::address_model;
use crate::dataset::DataFile;
use crate::distributions::{Dist, Distribution, Numerics};
use crate::functions::computes;
use crate::semantics::{driver_free, justified, Event};
use crate::types::{result_model, RuntimeError, Val, Value};

verus! {

/// Whether the count `after` is the count `before` with `n` more, or, where
/// the machine cannot count so far, has reached what it can count.
pub open spec fn counted(before: nat, after: nat, n: nat) -> bool {
    after == before + n || (before <= after && after >= usize::MAX)
}

/// What a driver may do at a call, under the numerics `N`: a relation
/// between the driver before the call, what it is asked, what it answers,
/// and the driver after the call. The methods of [`InferenceAlg`] keep to
/// these relations, and so whoever calls a driver can say what it was
/// asked.
pub trait Conduct<N: Numerics>: Sized {
    /// Whether the driver, asked for the value of a `sample` of `dist` at
    /// the node with the address `address`, may answer `answer` and then be
    /// `after`.
    spec fn samples(
        &self,
        numerics: &N,
        dist: Dist,
        address: Option<nat>,
        answer: Result<Val, RuntimeError>,
        after: Self,
    ) -> bool;

    /// Whether the driver, asked for the value of an `observe` of `value`
    /// under `dist` at the node with the address `address`, may answer
    /// `answer` and then be `after`.
    spec fn observes(
        &self,
        numerics: &N,
        dist: Dist,
        value: Val,
        address: Option<nat>,
        answer: Result<Val, RuntimeError>,
        after: Self,
    ) -> bool;

    /// Whether the driver, told that a run has ended with `value`, may then
    /// be `after`.
    spec fn ends(&self, numerics: &N, value: Val, after: Self) -> bool;
}

/// An inference driver: it decides what `sample` and `observe` give, and
/// what is recorded of each run.
pub trait InferenceAlg: Sized {
    /// The driver's invariant. Every method keeps it.
    spec fn wf(&self) -> bool;

    /// The number of runs that have ended, as far as the machine can count.
    spec fn finished(&self) -> nat;

    /// The value of a `sample` of `dist` at the node with the address
    /// `sample_number`.
    fn sample<N: Numerics>(
        &mut self,
        numerics: &N,
        dist: &Distribution,
        sample_number: Option<usize>,
    ) -> (r: Result<Value, RuntimeError>) where Self: Conduct<N>
        requires
            old(self).wf(),
        ensures
            final(self).wf(),
            final(self).finished() == old(self).finished(),
            old(self).samples(
                numerics,
                dist@,
                address_model(sample_number),
                result_model(r),
                *final(self),
            ),
    ;

    /// The value of an `observe` of `val` under `dist` at the node with the
    /// address `observe_number`.
    fn observe<N: Numerics>(
        &mut self,
        numerics: &N,
        dist: &Distribution,
        val: Value,
        observe_number: Option<usize>,
    ) -> (r: Result<Value, RuntimeError>) where Self: Conduct<N>
        requires
            old(self).wf(),
        ensures
            final(self).wf(),
            final(self).finished() == old(self).finished(),
            old(self).observes(
                numerics,
                dist@,
                val@,
                address_model(observe_number),
                result_model(r),
                *final(self),
            ),
    ;

    /// Ends a run whose expression gave `val`. The run is counted, unless
    /// the machine cannot count so far.
    fn finish_one_evaluation<N: Numerics>(&mut self, numerics: &N, val: Value) where
        Self: Conduct<N>,
        requires
            old(self).wf(),
        ensures
            final(self).wf(),
            counted(old(self).finished(), final(self).finished(), 1),
            old(self).ends(numerics, val@, *final(self)),
    ;

    /// The dataset of the runs that were recorded.
    fn finalize_and_make_dataset(self) -> (r: Result<DataFile, RuntimeError>)
        requires
            self.wf(),
    ;
}

/// Whether the event takes the driver from `before` to `after`: a question
/// to the driver is one that the driver may answer so, the end of a run is
/// one that the driver may take so, and a computation leaves the driver
/// alone and has an answer that the numerics give.
pub open spec fn step<T: Conduct<N>, N: Numerics>(
    numerics: &N,
    before: T,
    event: Event,
    after: T,
) -> bool {
    match event {
        Event::Sample { dist, address, answer } => before.samples(
            numerics,
            dist,
            address,
            answer,
            after,
        ),
        Event::Observe { dist, value, address, answer } => before.observes(
            numerics,
            dist,
            value,
            address,
            answer,
            after,
        ),
        Event::Compute { computation, answer } => after == before && computes(
            numerics,
            computation,
            answer,
        ),
        Event::End { value } => before.ends(numerics, value, after),
    }
}

/// Whether `states` are the states of a driver before, between and after
/// the events: each event takes the state before it to the one after it.
pub open spec fn is_course<T: Conduct<N>, N: Numerics>(
    numerics: &N,
    states: Seq<T>,
    events: Seq<Event>,
) -> bool {
    &&& states.len() == events.len() + 1
    &&& forall|k: int|
        0 <= k < events.len() ==> #[trigger] step(numerics, states[k], events[k], states[k + 1])
}

/// Whether the events, in their order, take the driver from `before` to
/// `after`.
pub open spec fn leads<T: Conduct<N>, N: Numerics>(
    numerics: &N,
    before: T,
    events: Seq<Event>,
    after: T,
) -> bool {
    exists|states: Seq<T>|
        #[trigger] is_course(numerics, states, events) && states[0] == before && states.last()
            == after
}

/// No event leaves the driver as it is.
pub proof fn lemma_leads_nowhere<T: Conduct<N>, N: Numerics>(numerics: &N, driver: T)
    ensures
        leads(numerics, driver, Seq::empty(), driver),
{
    assert(is_course(numerics, seq![driver], Seq::<Event>::empty()));
}

/// One event that takes the driver from `before` to `after` leads there.
pub proof fn lemma_leads_one<T: Conduct<N>, N: Numerics>(
    numerics: &N,
    before: T,
    event: Event,
    after: T,
)
    requires
        step(numerics, before, event, after),
    ensures
        leads(numerics, before, seq![event], after),
{
    let states = seq![before, after];
    let events = seq![event];
    assert(is_course(numerics, states, events));
}

/// Events that lead from a first state to a second, and events that lead
/// on to a third, lead from the first to the third, one behind the other.
pub proof fn lemma_leads_on<T: Conduct<N>, N: Numerics>(
    numerics: &N,
    first: T,
    events: Seq<Event>,
    second: T,
    more: Seq<Event>,
    third: T,
)
    requires
        leads(numerics, first, events, second),
        leads(numerics, second, more, third),
    ensures
        leads(numerics, first, events + more, third),
{
    let head = choose|states: Seq<T>|
        #[trigger] is_course(numerics, states, events) && states[0] == first && states.last()
            == second;
    let tail = choose|states: Seq<T>|
        #[trigger] is_course(numerics, states, more) && states[0] == second && states.last()
            == third;
    let states = head + tail.skip(1);
    let all = events + more;
    assert(is_course(numerics, states, all));
}

/// Events that lead from a first state to a last lead there through some
/// state between any first part of them and the rest.
pub proof fn lemma_leads_through<T: Conduct<N>, N: Numerics>(
    numerics: &N,
    first: T,
    events: Seq<Event>,
    more: Seq<Event>,
    last: T,
) -> (between: T)
    requires
        leads(numerics, first, events + more, last),
    ensures
        leads(numerics, first, events, between),
        leads(numerics, between, more, last),
{
    let all = events + more;
    let states = choose|states: Seq<T>|
        #[trigger] is_course(numerics, states, all) && states[0] == first && states.last()
            == last;
    let n = events.len() as int;
    let head = states.take(n + 1);
    let tail = states.skip(n);
    assert forall|k: int| 0 <= k < events.len() implies #[trigger] step(
        numerics,
        head[k],
        events[k],
        head[k + 1],
    ) by {
        assert(step(numerics, states[k], all[k], states[k + 1]));
    }
    assert(is_course(numerics, head, events));
    assert forall|k: int| 0 <= k < more.len() implies #[trigger] step(
        numerics,
        tail[k],
        more[k],
        tail[k + 1],
    ) by {
        let j = n + k;
        assert(step(numerics, states[j], all[j], states[j + 1]));
    }
    assert(is_course(numerics, tail, more));
    states[n]
}

/// One event that leads from a state to another takes the driver there.
pub proof fn lemma_leads_in_one<T: Conduct<N>, N: Numerics>(
    numerics: &N,
    before: T,
    event: Event,
    after: T,
)
    requires
        leads(numerics, before, seq![event], after),
    ensures
        step(numerics, before, event, after),
{
    let events = seq![event];
    let states = choose|states: Seq<T>|
        #[trigger] is_course(numerics, states, events) && states[0] == before && states.last()
            == after;
    let k = 0int;
    assert(step(numerics, states[k], events[k], states[k + 1]));
}

/// Along events that lead from one state of the driver to another, every
/// computation has an answer that the numerics give; and where every event
/// is a computation, the driver is as it was.
pub proof fn lemma_leads_by_the_numerics<T: Conduct<N>, N: Numerics>(
    numerics: &N,
    before: T,
    events: Seq<Event>,
    after: T,
)
    requires
        leads(numerics, before, events, after),
    ensures
        justified(numerics, events),
        driver_free(events) ==> after == before,
{
    let states = choose|states: Seq<T>|
        #[trigger] is_course(numerics, states, events) && states[0] == before && states.last()
            == after;
    assert forall|k: int| 0 <= k < events.len() implies ((#[trigger] events[k]) matches Event::Compute {
        computation,
        answer,
    } ==> computes(numerics, computation, answer)) by {
        assert(step(numerics, states[k], events[k], states[k + 1]));
    }
    if driver_free(events) {
        lemma_course_at_rest(numerics, states, events, events.len() as int);
    }
}

/// Along a course without a question to the driver every state is the
/// first.
proof fn lemma_course_at_rest<T: Conduct<N>, N: Numerics>(
    numerics: &N,
    states: Seq<T>,
    events: Seq<Event>,
    k: int,
)
    requires
        is_course(numerics, states, events),
        driver_free(events),
        0 <= k <= events.len(),
    ensures
        states[k] == states[0],
    decreases k,
{
    if k > 0 {
        lemma_course_at_rest(numerics, states, events, k - 1);
        let j = k - 1;
        assert(step(numerics, states[j], events[j], states[j + 1]));
    }
}

} // verus!

pub mod likelihood_weighting;
pub mod prior_only;
pub mod single_site_metropolis;
pub mod trace;
