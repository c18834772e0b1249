//! Laws of the builtin operators, of the evaluator and of the drivers: what
//! holds of every input, stated over the spec functions that the contracts
//! use.
use vstd::prelude::*;
use crate::ast::{Def, Expr};
use crate::distributions::{adds, Numerics};
use crate::functions::{Answer, Computation};
use crate::functions::arithmetic::division_spec;
use crate::functions::containers::{append_spec, get_spec, vector_spec};
use crate::functions::matrices::{
    add_spec, broadcast_index, cell, cols_of, compatible, float_cell, is_matrix, is_matrix_sum,
    is_row, larger, rows_of, transpose_spec, transposed, widened_grid,
};
use crate::functions::numbers::lemma_first_non_numeric;
use crate::inference::{leads, lemma_leads_in_one, lemma_leads_through, InferenceAlg};
use crate::inference::likelihood_weighting::{
    is_running_weight, observations, weight_of_a_run_is_sum_of_densities, LikelihoodWeighting,
};
use crate::inference::prior_only::PriorOnly;
use crate::inference::single_site_metropolis::{fresh_skeleton, SingleSiteMetropolis};
use crate::semantics::{
    done, foreach_wrong_length, lemma_columns_failed, lemma_replay_extend, lemma_runs_apart,
    let_without_bindings, let_without_body, refused, replay, replay_columns, replay_runs,
    within_run, Event, Failure, Outcome, ScopeModel,
};
use crate::types::{lemma_views_push, views, Float, Val, Value};

verus! {

/// `get` of a vector that `vector` made gives the argument at that index:
/// for every argument list and every index into it, what `vector` gives has
/// the argument itself at the index.
pub proof fn get_of_vector_is_argument(xs: Seq<Val>, i: int)
    requires
        0 <= i < xs.len(),
    ensures
        vector_spec(xs) == Ok::<Answer, Seq<char>>(Answer::Exactly(Val::Vector(xs))),
        get_spec(seq![Val::Vector(xs), Val::Integer(i)]) == Ok::<Answer, Seq<char>>(
            Answer::Exactly(xs[i]),
        ),
{
}

/// `get` at the length of a vector, of what `append` made of the vector and
/// a value, gives that value.
pub proof fn get_after_append_is_appended(v: Seq<Val>, x: Val)
    ensures
        append_spec(seq![Val::Vector(v), x]) == Ok::<Answer, Seq<char>>(
            Answer::Exactly(Val::Vector(v.push(x))),
        ),
        get_spec(seq![Val::Vector(v.push(x)), Val::Integer(v.len() as int)]) == Ok::<
            Answer,
            Seq<char>,
        >(Answer::Exactly(x)),
{
}

/// `get` with an index below zero, or at or beyond the vector's length, is
/// an error.
pub proof fn get_out_of_bounds_is_error(v: Seq<Val>, i: int)
    requires
        i < 0 || i >= v.len(),
    ensures
        get_spec(seq![Val::Vector(v), Val::Integer(i)]) == Err::<Answer, Seq<char>>(
            "Index out of bounds."@,
        ),
{
}

/// The transpose of a matrix of `r` rows and `c` columns is a matrix of `c`
/// rows and `r` columns, and its value in row `j` and column `i` is the
/// matrix's value in row `i` and column `j`. It is what `mat-transpose`
/// gives.
pub proof fn transpose_swaps_rows_and_columns(m: Val)
    requires
        is_matrix(m, false),
    ensures
        transpose_spec(seq![m]) == Ok::<Answer, Seq<char>>(Answer::Exactly(transposed(m))),
        is_matrix(transposed(m), false),
        rows_of(transposed(m)) == cols_of(m),
        cols_of(transposed(m)) == rows_of(m),
        forall|i: int, j: int|
            0 <= i < rows_of(m) && 0 <= j < cols_of(m) ==> cell(transposed(m), j, i) == cell(
                m,
                i,
                j,
            ),
{
    let t = transposed(m);
    let rows = t->Vector_0;
    assert forall|j: int| 0 <= j < rows.len() implies is_row(#[trigger] rows[j], rows_of(m)) by {}
}

/// The transpose of the transpose of a matrix is the matrix.
pub proof fn transpose_twice_is_identity(m: Val)
    requires
        is_matrix(m, false),
    ensures
        transposed(transposed(m)) == m,
{
    transpose_swaps_rows_and_columns(m);
    let t = transposed(m);
    let back = transposed(t);
    let rows = m->Vector_0;
    assert forall|i: int| 0 <= i < rows.len() implies back->Vector_0[i] == rows[i] by {
        assert(is_row(rows[i], cols_of(m)));
        let a = back->Vector_0[i]->Vector_0;
        let b = rows[i]->Vector_0;
        assert(a.len() == b.len());
        assert forall|j: int| 0 <= j < a.len() implies a[j] == b[j] by {
            assert(cell(t, j, i) == cell(m, i, j));
        }
        assert(a =~= b);
    }
    assert(back->Vector_0 =~= rows);
}

/// `mat-add` accepts two numeric matrices in one order exactly if it accepts
/// them in the other, and the sum then has the same numbers of rows and
/// columns in both orders. Whether the numbers of the two sums agree is for
/// the numerics to say: see [`matrix_sum_commutes_where_addition_does`].
pub proof fn matrix_sum_has_one_shape_in_both_orders(a: Val, b: Val)
    requires
        is_matrix(a, true),
        is_matrix(b, true),
    ensures
        add_spec(seq![a, b]) is Ok <==> add_spec(seq![b, a]) is Ok,
        add_spec(seq![a, b]) is Ok <==> compatible(rows_of(a), cols_of(a), rows_of(b), cols_of(b)),
        add_spec(seq![a, b]) is Ok ==> add_spec(seq![a, b]) == Ok::<Answer, Seq<char>>(
            Answer::Computed(Computation::MatAdd(a, b)),
        ) && add_spec(seq![b, a]) == Ok::<Answer, Seq<char>>(
            Answer::Computed(Computation::MatAdd(b, a)),
        ),
        larger(rows_of(a), rows_of(b)) == larger(rows_of(b), rows_of(a)),
        larger(cols_of(a), cols_of(b)) == larger(cols_of(b), cols_of(a)),
{
}

/// Whether the addition of the numerics commutes: what it may give for two
/// numbers it may give for them in the other order.
pub open spec fn addition_commutes<N: Numerics>(numerics: &N) -> bool {
    forall|x: Float, y: Float, r: Float|
        #[trigger] adds(numerics, x, y, r) ==> adds(numerics, y, x, r)
}

/// Where the addition of the numerics commutes, so does `mat-add`: a sum of
/// two matrices in one order is a sum of them in the other.
pub proof fn matrix_sum_commutes_where_addition_does<N: Numerics>(
    numerics: &N,
    a: Val,
    b: Val,
    sum: Val,
)
    requires
        addition_commutes(numerics),
        is_matrix_sum(numerics, a, b, sum),
    ensures
        is_matrix_sum(numerics, b, a, sum),
{
    let (ga, gb) = choose|ga: Seq<Seq<Float>>, gb: Seq<Seq<Float>>|
        #![trigger widened_grid(numerics, a, ga), widened_grid(numerics, b, gb)]
        widened_grid(numerics, a, ga) && widened_grid(numerics, b, gb) && forall|i: int, j: int|
            0 <= i < larger(rows_of(a), rows_of(b)) && 0 <= j < larger(cols_of(a), cols_of(b))
                ==> adds(
                numerics,
                ga[broadcast_index(i, rows_of(a))][broadcast_index(j, cols_of(a))],
                gb[broadcast_index(i, rows_of(b))][broadcast_index(j, cols_of(b))],
                #[trigger] float_cell(sum, i, j),
            );
    assert(widened_grid(numerics, b, gb) && widened_grid(numerics, a, ga));
    assert forall|i: int, j: int|
        0 <= i < larger(rows_of(b), rows_of(a)) && 0 <= j < larger(
            cols_of(b),
            cols_of(a),
        ) implies adds(
        numerics,
        gb[broadcast_index(i, rows_of(b))][broadcast_index(j, cols_of(b))],
        ga[broadcast_index(i, rows_of(a))][broadcast_index(j, cols_of(a))],
        #[trigger] float_cell(sum, i, j),
    ) by {
        assert(adds(
            numerics,
            ga[broadcast_index(i, rows_of(a))][broadcast_index(j, cols_of(a))],
            gb[broadcast_index(i, rows_of(b))][broadcast_index(j, cols_of(b))],
            float_cell(sum, i, j),
        ));
    }
}

/// Division of an integer by the integer zero is an error. Division with a
/// floating-point number on either side is never one, whatever the divisor:
/// the quotient is the numerics', infinite or not a number as it may be.
pub proof fn division_by_zero(x: Val, y: Val)
    requires
        x.is_numeric(),
        y.is_numeric(),
    ensures
        x is Integer && y == Val::Integer(0) ==> division_spec(seq![x, y]) == Err::<
            Answer,
            Seq<char>,
        >("Division by zero."@),
        x is Float || y is Float ==> division_spec(seq![x, y]) == Ok::<Answer, Seq<char>>(
            Answer::Computed(Computation::Quotient(x.number(), y.number())),
        ),
{
    let args = seq![x, y];
    lemma_first_non_numeric(args);
}

/// A `let` without bindings is an error, and so is a `let` without a body,
/// whatever else it holds and whatever the driver and the numerics would
/// answer: nothing is asked of them.
pub proof fn let_needs_bindings_and_body(
    fns: Seq<Def>,
    scope: ScopeModel,
    names: Seq<Seq<char>>,
    inits: Seq<Expr>,
    body: Seq<Expr>,
    depth: nat,
    tape: Seq<Event>,
)
    ensures
        inits.len() == 0 ==> replay(fns, scope, Expr::Let { names, inits, body }, depth, tape)
            == refused::<Val>(let_without_bindings(), 0),
        inits.len() > 0 && body.len() == 0 ==> replay(
            fns,
            scope,
            Expr::Let { names, inits, body },
            depth,
            tape,
        ) == refused::<Val>(let_without_body(), 0),
{
}

/// A `foreach` with a binding whose vector has not `n_iters` values is an
/// error: where the bindings before it give their vectors and its own
/// expression gives a vector of another length, the `foreach` fails with
/// the message of the wrong length, whatever stands in its body and in the
/// bindings behind.
pub proof fn foreach_with_wrong_length_is_error(
    fns: Seq<Def>,
    scope: ScopeModel,
    n_iters: nat,
    names: Seq<Seq<char>>,
    inits: Seq<Expr>,
    body: Seq<Expr>,
    at: nat,
    items: Seq<Val>,
    depth: nat,
    tape: Seq<Event>,
)
    requires
        at < inits.len(),
        replay_columns(fns, scope, inits, at, n_iters, depth, tape).outcome is Done,
        replay(
            fns,
            scope,
            inits[at as int],
            depth,
            tape.skip(replay_columns(fns, scope, inits, at, n_iters, depth, tape).used as int),
        ).outcome == Outcome::Done(Val::Vector(items)),
        items.len() != n_iters,
    ensures
        replay(fns, scope, Expr::ForEach { n_iters, names, inits, body }, depth, tape).outcome
            == Outcome::<Val>::Failed(Failure::Message(foreach_wrong_length())),
{
    assert(replay_columns(fns, scope, inits, at + 1, n_iters, depth, tape).outcome
        == Outcome::<Seq<Seq<Val>>>::Failed(Failure::Message(foreach_wrong_length())));
    lemma_columns_failed(fns, scope, inits, at + 1, inits.len(), n_iters, depth, tape);
}

/// An evaluation that can do without the driver and the numerics asks
/// nothing of them: where the replay without events is not stuck, the
/// replay on every tape ends in the same way and uses no event.
pub proof fn evaluation_without_questions(
    fns: Seq<Def>,
    scope: ScopeModel,
    e: Expr,
    depth: nat,
    tape: Seq<Event>,
)
    requires
        !(replay(fns, scope, e, depth, Seq::empty()).outcome is Stuck),
    ensures
        replay(fns, scope, e, depth, tape) == replay(fns, scope, e, depth, Seq::empty()),
        replay(fns, scope, e, depth, tape).used == 0,
{
    lemma_replay_extend(fns, scope, e, depth, Seq::empty(), tape);
    crate::semantics::lemma_replay_local(fns, scope, e, depth, Seq::empty(), Seq::empty());
}

/// Within a run the driver that samples from the prior stays as it is.
pub proof fn prior_only_records_nothing_within_a_run<N: Numerics>(
    numerics: &N,
    before: PriorOnly,
    events: Seq<Event>,
    after: PriorOnly,
)
    requires
        leads(numerics, before, events, after),
        within_run(events),
    ensures
        after == before,
    decreases events.len(),
{
    if events.len() == 0 {
        assert(events =~= Seq::<Event>::empty());
    } else {
        let head = events.drop_last();
        let last = events.last();
        assert(events =~= head + seq![last]);
        let between = lemma_leads_through(numerics, before, head, seq![last], after);
        prior_only_records_nothing_within_a_run(numerics, before, head, between);
        lemma_leads_in_one(numerics, between, last, after);
    }
}

/// Sampling from the prior records every run: after the runs of a program
/// the driver holds their values, in their order, behind the values that it
/// held.
pub proof fn prior_only_records_every_run<N: Numerics>(
    numerics: &N,
    before: PriorOnly,
    after: PriorOnly,
    fns: Seq<Def>,
    scope: ScopeModel,
    e: Expr,
    n: nat,
    depth: nat,
    events: Seq<Event>,
    values: Seq<Val>,
)
    requires
        leads(numerics, before, events, after),
        replay_runs(fns, scope, e, n, depth, events) == done(values, events.len()),
    ensures
        values.len() == n,
        views(after.results@) == views(before.results@) + values,
    decreases n,
{
    if n == 0 {
        assert(events =~= Seq::<Event>::empty());
    } else {
        let (earlier, run, firsts, v) = lemma_runs_apart(fns, scope, e, n, depth, events, values);
        let end = Event::End { value: v };
        assert(events =~= earlier + (run + seq![end]));
        let started = lemma_leads_through(numerics, before, earlier, run + seq![end], after);
        prior_only_records_every_run(
            numerics,
            before,
            started,
            fns,
            scope,
            e,
            (n - 1) as nat,
            depth,
            earlier,
            firsts,
        );
        let run_over = lemma_leads_through(numerics, started, run, seq![end], after);
        prior_only_records_nothing_within_a_run(numerics, started, run, run_over);
        lemma_leads_in_one(numerics, run_over, end, after);
    }
}

/// Within a run likelihood weighting records nothing: the values and the
/// log-weights of the runs that have ended stay as they are.
pub proof fn likelihood_weighting_records_nothing_within_a_run<N: Numerics>(
    numerics: &N,
    before: LikelihoodWeighting,
    events: Seq<Event>,
    after: LikelihoodWeighting,
)
    requires
        leads(numerics, before, events, after),
        within_run(events),
    ensures
        after.results == before.results,
        after.weights == before.weights,
    decreases events.len(),
{
    if events.len() == 0 {
        assert(events =~= Seq::<Event>::empty());
    } else {
        let head = events.drop_last();
        let last = events.last();
        assert(events =~= head + seq![last]);
        let between = lemma_leads_through(numerics, before, head, seq![last], after);
        likelihood_weighting_records_nothing_within_a_run(numerics, before, head, between);
        lemma_leads_in_one(numerics, between, last, after);
    }
}

/// Likelihood weighting records every run: after the runs of a program the
/// driver holds their values, in their order, behind the values that it
/// held, and a log-weight for each of them; it is well formed if it was,
/// and at the start of a run.
pub proof fn likelihood_weighting_records_every_run<N: Numerics>(
    numerics: &N,
    before: LikelihoodWeighting,
    after: LikelihoodWeighting,
    fns: Seq<Def>,
    scope: ScopeModel,
    e: Expr,
    n: nat,
    depth: nat,
    events: Seq<Event>,
    values: Seq<Val>,
)
    requires
        leads(numerics, before, events, after),
        replay_runs(fns, scope, e, n, depth, events) == done(values, events.len()),
    ensures
        values.len() == n,
        views(after.results@) == views(before.results@) + values,
        after.weights@.len() == before.weights@.len() + n,
        after.weights@.take(before.weights@.len() as int) == before.weights@,
        before.wf() ==> after.wf(),
        after.log_w == if n == 0 {
            before.log_w
        } else {
            Float::spec_zero()
        },
    decreases n,
{
    if n == 0 {
        assert(events =~= Seq::<Event>::empty());
    } else {
        let (earlier, run, firsts, v) = lemma_runs_apart(fns, scope, e, n, depth, events, values);
        let end = Event::End { value: v };
        assert(events =~= earlier + (run + seq![end]));
        let started = lemma_leads_through(numerics, before, earlier, run + seq![end], after);
        likelihood_weighting_records_every_run(
            numerics,
            before,
            started,
            fns,
            scope,
            e,
            (n - 1) as nat,
            depth,
            earlier,
            firsts,
        );
        let run_over = lemma_leads_through(numerics, started, run, seq![end], after);
        likelihood_weighting_records_nothing_within_a_run(numerics, started, run, run_over);
        lemma_leads_in_one(numerics, run_over, end, after);
        if before.wf() {
            assert(views(after.results@).len() == after.results@.len());
        }
    }
}

/// Likelihood weighting weighs every run by what it observed: of the runs
/// of a program by a driver that stood at the start of a run, the run `k`
/// has its value recorded, and with it the sum of the log-densities of its
/// observations, added in order from zero under the numerics.
///
/// The result holds the events of the run `k`, the log-densities of the
/// observations among them, and the running sums of the log-densities.
pub proof fn likelihood_weighting_weighs_every_run<N: Numerics>(
    numerics: &N,
    before: LikelihoodWeighting,
    after: LikelihoodWeighting,
    fns: Seq<Def>,
    scope: ScopeModel,
    e: Expr,
    n: nat,
    depth: nat,
    events: Seq<Event>,
    values: Seq<Val>,
    k: nat,
) -> (weighed: (Seq<Event>, Seq<Float>, Seq<Float>))
    requires
        leads(numerics, before, events, after),
        replay_runs(fns, scope, e, n, depth, events) == done(values, events.len()),
        before.log_w == Float::spec_zero(),
        k < n,
    ensures
        values.len() == n,
        replay(fns, scope, e, depth, weighed.0) == done(values[k as int], weighed.0.len()),
        within_run(weighed.0),
        is_running_weight(numerics, observations(weighed.0), weighed.1, weighed.2),
        weighed.2[0] == Float::spec_zero(),
        views(after.results@)[(before.results@.len() + k) as int] == values[k as int],
        after.weights@.len() == before.weights@.len() + n,
        after.weights@[(before.weights@.len() + k) as int] == weighed.2.last(),
    decreases n,
{
    let (earlier, run, firsts, v) = lemma_runs_apart(fns, scope, e, n, depth, events, values);
    let end = Event::End { value: v };
    assert(events =~= earlier + (run + seq![end]));
    let started = lemma_leads_through(numerics, before, earlier, run + seq![end], after);
    likelihood_weighting_records_every_run(
        numerics,
        before,
        started,
        fns,
        scope,
        e,
        (n - 1) as nat,
        depth,
        earlier,
        firsts,
    );
    likelihood_weighting_records_every_run(
        numerics,
        before,
        after,
        fns,
        scope,
        e,
        n,
        depth,
        events,
        values,
    );
    let run_over = lemma_leads_through(numerics, started, run, seq![end], after);
    likelihood_weighting_records_nothing_within_a_run(numerics, started, run, run_over);
    lemma_leads_in_one(numerics, run_over, end, after);
    assert(views(before.results@).len() == before.results@.len());
    if k + 1 == n {
        let (densities, weights) = weight_of_a_run_is_sum_of_densities(
            numerics,
            started,
            run,
            run_over,
        );
        (run, densities, weights)
    } else {
        likelihood_weighting_weighs_every_run(
            numerics,
            before,
            started,
            fns,
            scope,
            e,
            (n - 1) as nat,
            depth,
            earlier,
            firsts,
            k,
        )
    }
}

/// Whether `picks` picks places among the first `n`, in rising order.
pub open spec fn is_selection(picks: Seq<int>, n: nat) -> bool {
    &&& forall|i: int| 0 <= i < picks.len() ==> 0 <= #[trigger] picks[i] < n
    &&& forall|i: int, j: int| 0 <= i < j < picks.len() ==> picks[i] < picks[j]
}

/// The values at the places that `picks` picks, in the order of the picks.
pub open spec fn selected(values: Seq<Val>, picks: Seq<int>) -> Seq<Val> {
    Seq::new(picks.len(), |i: int| values[picks[i]])
}

/// Within a run single-site Metropolis keeps its record: the recorded
/// values, the count of accepted runs, the last accepted run, the proposal
/// site and `skip` stay as they are.
pub proof fn metropolis_keeps_its_record_within_a_run<N: Numerics>(
    numerics: &N,
    before: SingleSiteMetropolis,
    events: Seq<Event>,
    after: SingleSiteMetropolis,
)
    requires
        leads(numerics, before, events, after),
        within_run(events),
    ensures
        SingleSiteMetropolis::same_chain(before, after),
    decreases events.len(),
{
    if events.len() == 0 {
        assert(events =~= Seq::<Event>::empty());
    } else {
        let head = events.drop_last();
        let last = events.last();
        assert(events =~= head + seq![last]);
        let between = lemma_leads_through(numerics, before, head, seq![last], after);
        metropolis_keeps_its_record_within_a_run(numerics, before, head, between);
        lemma_leads_in_one(numerics, between, last, after);
    }
}

/// Single-site Metropolis records values of runs, thinned: after the runs
/// of a program the driver holds, behind the values that it held, the
/// values of some of the runs, in the order of the runs. Every recorded
/// value stands for `skip` accepted runs, so the recorded values times
/// `skip`, with the accepted runs that are counted towards the next one,
/// are no more than the runs with those counted before.
///
/// The result holds the places of the runs whose values were recorded.
pub proof fn metropolis_records_thinned_values<N: Numerics>(
    numerics: &N,
    before: SingleSiteMetropolis,
    after: SingleSiteMetropolis,
    fns: Seq<Def>,
    scope: ScopeModel,
    e: Expr,
    n: nat,
    depth: nat,
    events: Seq<Event>,
    values: Seq<Val>,
) -> (picks: Seq<int>)
    requires
        leads(numerics, before, events, after),
        replay_runs(fns, scope, e, n, depth, events) == done(values, events.len()),
    ensures
        values.len() == n,
        after.skip == before.skip,
        is_selection(picks, n),
        views(after.samples@) == views(before.samples@) + selected(values, picks),
        picks.len() * after.skip + after.count <= before.count + n,
        n > 0 ==> after.skeleton() == fresh_skeleton() && after.last is Some,
    decreases n,
{
    if n == 0 {
        assert(events =~= Seq::<Event>::empty());
        let picks = Seq::<int>::empty();
        assert(views(before.samples@) + selected(values, picks) =~= views(before.samples@));
        assert(picks.len() * after.skip == 0) by (nonlinear_arith)
            requires
                picks.len() == 0,
        ;
        picks
    } else {
        let (earlier, run, firsts, v) = lemma_runs_apart(fns, scope, e, n, depth, events, values);
        let end = Event::End { value: v };
        assert(events =~= earlier + (run + seq![end]));
        let started = lemma_leads_through(numerics, before, earlier, run + seq![end], after);
        let first_picks = metropolis_records_thinned_values(
            numerics,
            before,
            started,
            fns,
            scope,
            e,
            (n - 1) as nat,
            depth,
            earlier,
            firsts,
        );
        let run_over = lemma_leads_through(numerics, started, run, seq![end], after);
        metropolis_keeps_its_record_within_a_run(numerics, started, run, run_over);
        lemma_leads_in_one(numerics, run_over, end, after);
        let (accept, site_index, val) = choose|accept: bool, site_index: usize, val: Value|
            val@ == v && SingleSiteMetropolis::decided(numerics, run_over, accept)
                && #[trigger] SingleSiteMetropolis::concluded(
                run_over,
                accept,
                site_index,
                val,
                after,
            );
        assert(after.proposal.trace@.dom() =~= Set::empty());
        assert(selected(values, first_picks) =~= selected(firsts, first_picks));
        if accept && run_over.count + 1 >= run_over.skip {
            let picks = first_picks.push(n - 1);
            lemma_views_push(run_over.samples@, val);
            assert(selected(values, picks) =~= selected(firsts, first_picks).push(v));
            assert(views(after.samples@) =~= views(before.samples@) + selected(values, picks));
            assert(picks.len() * after.skip == first_picks.len() * after.skip + after.skip)
                by (nonlinear_arith)
                requires
                    picks.len() == first_picks.len() + 1,
            ;
            picks
        } else {
            assert(views(after.samples@) =~= views(before.samples@) + selected(
                values,
                first_picks,
            ));
            first_picks
        }
    }
}

} // verus!
