//! What an expression evaluates to.
//!
//! An evaluation asks two parties for answers that it cannot compute: the
//! inference driver, at every `sample` and `observe`, and the numerics,
//! wherever a builtin operator computes on floating-point numbers. Each
//! question with its answer is an [`Event`]. Given the events of an
//! evaluation in their order, [`replay`] says what the evaluation gives:
//! which questions it asks, and which value or error comes out in the end.
//! With no event left where one is needed, or with an event that answers
//! another question than the one asked, the replay is stuck.
//!
//! A run of a program evaluates the program's expression and then tells the
//! driver of its end, which is an event too; [`replay_runs`] says what
//! several runs give, one behind the other.
use vstd::prelude::*;
use crate::ast::{Def, Expr};
use crate::distributions::{Dist, Numerics};
use crate::functions::{builtin_named, builtin_spec, computes, Answer, Computation};
use crate::types::{RuntimeError, Val};

verus! {

/// The model of a scope: names and their values, the innermost last.
pub type ScopeModel = Seq<(Seq<char>, Val)>;

/// What passes between the evaluator and the two parties that it asks: a
/// question with the answer that it got, or the end of a run.
pub enum Event {
    /// The driver was asked for the value of a `sample` of `dist` at the
    /// node with the address `address`.
    Sample { dist: Dist, address: Option<nat>, answer: Result<Val, RuntimeError> },
    /// The driver was asked for the value of an `observe` of `value` under
    /// `dist` at the node with the address `address`.
    Observe { dist: Dist, value: Val, address: Option<nat>, answer: Result<Val, RuntimeError> },
    /// The numerics carried out the computation of a builtin operator.
    Compute { computation: Computation, answer: Val },
    /// The driver was told that a run has ended with `value`.
    End { value: Val },
}

/// Why an evaluation failed.
pub enum Failure {
    /// With an error of the evaluator, which has this message and no cause.
    Message(Seq<char>),
    /// With an error of the driver, which the evaluator hands on as it
    /// came.
    Raised(RuntimeError),
}

/// How a replay ended.
pub enum Outcome<V> {
    /// With this result.
    Done(V),
    /// With this failure.
    Failed(Failure),
    /// Not at all: the events do not fit the evaluation.
    Stuck,
}

/// The end of a replay, and the number of events that it used.
pub struct Replay<V> {
    pub outcome: Outcome<V>,
    pub used: nat,
}

/// A replay that ended with `v` after `used` events.
pub open spec fn done<V>(v: V, used: nat) -> Replay<V> {
    Replay { outcome: Outcome::Done(v), used }
}

/// A replay that failed after `used` events.
pub open spec fn failed<V>(failure: Failure, used: nat) -> Replay<V> {
    Replay { outcome: Outcome::Failed(failure), used }
}

/// A replay that failed with an error of the evaluator after `used` events.
pub open spec fn refused<V>(message: Seq<char>, used: nat) -> Replay<V> {
    Replay { outcome: Outcome::Failed(Failure::Message(message)), used }
}

/// A replay that is stuck.
pub open spec fn stuck<V>() -> Replay<V> {
    Replay { outcome: Outcome::Stuck, used: 0 }
}

/// The replay `r`, which did not end with a result, as a replay of another
/// kind.
pub open spec fn halted<V, W>(r: Replay<V>) -> Replay<W> {
    match r.outcome {
        Outcome::Failed(failure) => failed(failure, r.used),
        _ => stuck(),
    }
}

/// The replay `r` behind `used` events of an earlier replay.
pub open spec fn carry<V>(used: nat, r: Replay<V>) -> Replay<V> {
    match r.outcome {
        Outcome::Stuck => stuck(),
        _ => Replay { outcome: r.outcome, used: used + r.used },
    }
}

/// The replay of a sequence of expressions as that of its last expression.
pub open spec fn last_of(r: Replay<Seq<Val>>) -> Replay<Val> {
    match r.outcome {
        Outcome::Done(vals) => done(vals.last(), r.used),
        _ => halted(r),
    }
}

/// The replay of a sequence of expressions as that of the vector of their
/// values.
pub open spec fn vector_of(r: Replay<Seq<Val>>) -> Replay<Val> {
    match r.outcome {
        Outcome::Done(vals) => done(Val::Vector(vals), r.used),
        _ => halted(r),
    }
}

/// The end of a replay that the driver decides: its answer, after one event
/// more.
pub open spec fn answered(answer: Result<Val, RuntimeError>, used: nat) -> Replay<Val> {
    match answer {
        Ok(v) => done(v, used + 1),
        Err(e) => failed(Failure::Raised(e), used + 1),
    }
}

/// The replay of the driver's answer to a `sample`: the event at `at` must
/// be that question.
pub open spec fn ask_sample(dist: Dist, address: Option<nat>, tape: Seq<Event>, at: nat) -> Replay<Val> {
    if at < tape.len() {
        match tape[at as int] {
            Event::Sample { dist: asked, address: at_node, answer } => if asked == dist && at_node
                == address {
                answered(answer, at)
            } else {
                stuck()
            },
            _ => stuck(),
        }
    } else {
        stuck()
    }
}

/// The replay of the driver's answer to an `observe`: the event at `at`
/// must be that question.
pub open spec fn ask_observe(
    dist: Dist,
    value: Val,
    address: Option<nat>,
    tape: Seq<Event>,
    at: nat,
) -> Replay<Val> {
    if at < tape.len() {
        match tape[at as int] {
            Event::Observe { dist: asked, value: seen, address: at_node, answer } => if asked
                == dist && seen == value && at_node == address {
                answered(answer, at)
            } else {
                stuck()
            },
            _ => stuck(),
        }
    } else {
        stuck()
    }
}

/// The replay of the numerics' answer to a computation: the first event
/// must be that computation.
pub open spec fn ask_compute(computation: Computation, tape: Seq<Event>) -> Replay<Val> {
    if 0 < tape.len() {
        match tape[0] {
            Event::Compute { computation: asked, answer } => if asked == computation {
                done(answer, 1)
            } else {
                stuck()
            },
            _ => stuck(),
        }
    } else {
        stuck()
    }
}

/// The value of `name` in the scope: that of the innermost binding of the
/// name.
pub open spec fn lookup(scope: ScopeModel, name: Seq<char>) -> Option<Val>
    decreases scope.len(),
{
    if scope.len() == 0 {
        None
    } else if scope.last().0 == name {
        Some(scope.last().1)
    } else {
        lookup(scope.drop_last(), name)
    }
}

/// The definition of `name` in the function table: the last one of that
/// name.
pub open spec fn find_function(fns: Seq<Def>, name: Seq<char>) -> Option<Def>
    decreases fns.len(),
{
    if fns.len() == 0 {
        None
    } else if fns.last().name == name {
        Some(fns.last())
    } else {
        find_function(fns.drop_last(), name)
    }
}

/// The bindings of a function's parameters to the arguments of a call.
pub open spec fn parameter_bindings(params: Seq<Seq<char>>, vals: Seq<Val>) -> ScopeModel {
    Seq::new(params.len(), |i: int| (params[i], vals[i]))
}

/// The bindings of iteration `k` of a `foreach`: each name with element `k`
/// of its vector.
pub open spec fn iteration_bindings(names: Seq<Seq<char>>, columns: Seq<Seq<Val>>, k: int) -> ScopeModel {
    Seq::new(names.len(), |i: int| (names[i], columns[i][k]))
}

/// The arguments of iteration `k` of a `loop`: the iteration's number, the
/// value so far, and the parameters.
pub open spec fn loop_arguments(k: int, accumulator: Val, params: Seq<Val>) -> Seq<Val> {
    seq![Val::Integer(k), accumulator] + params
}

/// The message of the error for a variable that the scope does not hold.
pub open spec fn variable_not_defined(name: Seq<char>) -> Seq<char> {
    "Variable "@ + name + " not defined."@
}

/// The message of the error for a name that is neither a builtin operator
/// nor a defined function.
pub open spec fn function_not_found(name: Seq<char>) -> Seq<char> {
    "Could not find function `"@ + name + "`"@
}

/// The message of the error for a call of a defined function with more or
/// fewer arguments than it has parameters.
pub open spec fn wrong_arity(name: Seq<char>) -> Seq<char> {
    name + " was called with the wrong number of arguments."@
}

/// The message of the error for calls of defined functions nested deeper
/// than the evaluation allows.
pub open spec fn too_deep() -> Seq<char> {
    "Function calls are nested too deeply."@
}

/// The message of the error for a `let` without bindings.
pub open spec fn let_without_bindings() -> Seq<char> {
    "Let must have at least one binding."@
}

/// The message of the error for a `let` without a body.
pub open spec fn let_without_body() -> Seq<char> {
    "Let must have a body."@
}

/// The message of the error for a `foreach` that iterates without a body.
pub open spec fn foreach_without_body() -> Seq<char> {
    "`foreach` must have a body."@
}

/// The message of the error for a `foreach` binding that is no vector.
pub open spec fn foreach_not_vector() -> Seq<char> {
    "`foreach` binding values must be vectors."@
}

/// The message of the error for a `foreach` binding whose vector has not
/// as many values as the `foreach` has iterations.
pub open spec fn foreach_wrong_length() -> Seq<char> {
    "`foreach` binding vectors must have the specified length."@
}

/// The message of the error for an `if` whose test gives no boolean.
pub open spec fn if_not_boolean() -> Seq<char> {
    "The test of `if` must evaluate to a boolean."@
}

/// The message of the error for a `sample` of what is no distribution.
pub open spec fn sample_not_distribution() -> Seq<char> {
    "Sample must only be called on a Distribution value."@
}

/// The message of the error for an `observe` under what is no
/// distribution.
pub open spec fn observe_not_distribution() -> Seq<char> {
    "First expression in `observe` must evaluate to a distribution."@
}

/// The message of the error for a `loop` with more iterations than an
/// integer value can number.
pub open spec fn loop_index_overflow() -> Seq<char> {
    "Loop index overflow."@
}

/// What the expression evaluates to in the scope, where the driver and the
/// numerics answer as the events of `tape` say, with the function table
/// `fns` and calls of defined functions nested at most `depth` deep.
///
/// - A literal gives its value, a variable the value of its innermost
///   binding.
/// - `let` makes its bindings in order, each seeing the earlier ones, and
///   gives the value of the last expression of its body; it must have a
///   binding and a body.
/// - `if` evaluates its test, which must give a boolean, and then one
///   branch.
/// - A vector evaluates its elements from left to right.
/// - An application evaluates its arguments from left to right and applies
///   the builtin operator of that name, or else the defined function.
/// - `foreach` evaluates its bindings, each of which must give a vector of
///   `n_iters` values, and then its body once for each index, in order.
/// - `loop` evaluates its accumulator and its parameters and applies the
///   function `n_iters` times.
/// - `sample` evaluates its expression, which must give a distribution, and
///   gives what the driver answers. `observe` evaluates its first
///   expression, which must give a distribution, then its second, and gives
///   what the driver answers.
pub open spec fn replay(fns: Seq<Def>, scope: ScopeModel, e: Expr, depth: nat, tape: Seq<Event>) -> Replay<
    Val,
>
    decreases depth, 1nat, e, 0nat, 0nat,
{
    match e {
        Expr::Variable(name) => match lookup(scope, name) {
            Some(v) => done(v, 0),
            None => refused(variable_not_defined(name), 0),
        },
        Expr::Boolean(b) => done(Val::Boolean(b), 0),
        Expr::Integer(i) => done(Val::Integer(i), 0),
        Expr::Float(x) => done(Val::Float(x), 0),
        Expr::Null => done(Val::Null, 0),
        Expr::Let { names, inits, body } => if inits.len() == 0 {
            refused(let_without_bindings(), 0)
        } else if body.len() == 0 {
            refused(let_without_body(), 0)
        } else {
            let bound = replay_bind(fns, scope, names, inits, inits.len(), depth, tape);
            match bound.outcome {
                Outcome::Done(inner) => carry(
                    bound.used,
                    last_of(
                        replay_all(
                            fns,
                            inner,
                            body,
                            body.len(),
                            depth,
                            tape.skip(bound.used as int),
                        ),
                    ),
                ),
                _ => halted(bound),
            }
        },
        Expr::If(test, yes, no) => {
            let chosen = replay(fns, scope, *test, depth, tape);
            match chosen.outcome {
                Outcome::Done(Val::Boolean(b)) => if b {
                    carry(chosen.used, replay(fns, scope, *yes, depth, tape.skip(chosen.used as int)))
                } else {
                    carry(chosen.used, replay(fns, scope, *no, depth, tape.skip(chosen.used as int)))
                },
                Outcome::Done(_) => refused(if_not_boolean(), chosen.used),
                _ => halted(chosen),
            }
        },
        Expr::Vector(items) => vector_of(replay_all(fns, scope, items, items.len(), depth, tape)),
        Expr::Apply(name, args) => {
            let given = replay_all(fns, scope, args, args.len(), depth, tape);
            match given.outcome {
                Outcome::Done(vals) => carry(
                    given.used,
                    replay_dispatch(fns, scope, name, vals, depth, tape.skip(given.used as int)),
                ),
                _ => halted(given),
            }
        },
        Expr::Sample(dist, address) => {
            let from = replay(fns, scope, *dist, depth, tape);
            match from.outcome {
                Outcome::Done(Val::Distribution(d)) => ask_sample(d, address, tape, from.used),
                Outcome::Done(_) => refused(sample_not_distribution(), from.used),
                _ => halted(from),
            }
        },
        Expr::Observe(dist, val, address) => {
            let under = replay(fns, scope, *dist, depth, tape);
            match under.outcome {
                Outcome::Done(Val::Distribution(d)) => {
                    let seen = replay(fns, scope, *val, depth, tape.skip(under.used as int));
                    match seen.outcome {
                        Outcome::Done(v) => ask_observe(d, v, address, tape, under.used + seen.used),
                        _ => carry(under.used, halted(seen)),
                    }
                },
                Outcome::Done(_) => refused(observe_not_distribution(), under.used),
                _ => halted(under),
            }
        },
        Expr::ForEach { n_iters, names, inits, body } => {
            let given = replay_columns(fns, scope, inits, inits.len(), n_iters, depth, tape);
            match given.outcome {
                Outcome::Done(columns) => carry(
                    given.used,
                    vector_of(
                        replay_iterate(
                            fns,
                            scope,
                            names,
                            columns,
                            body,
                            n_iters,
                            depth,
                            tape.skip(given.used as int),
                        ),
                    ),
                ),
                _ => halted(given),
            }
        },
        Expr::Loop { n_iters, accumulator, fn_name, params } => {
            let first = replay(fns, scope, *accumulator, depth, tape);
            match first.outcome {
                Outcome::Done(start) => {
                    let given = replay_all(
                        fns,
                        scope,
                        params,
                        params.len(),
                        depth,
                        tape.skip(first.used as int),
                    );
                    match given.outcome {
                        Outcome::Done(vals) => carry(
                            first.used + given.used,
                            replay_loop(
                                fns,
                                scope,
                                fn_name,
                                start,
                                vals,
                                params,
                                n_iters,
                                depth,
                                tape.skip((first.used + given.used) as int),
                            ),
                        ),
                        _ => carry(first.used, halted(given)),
                    }
                },
                _ => halted(first),
            }
        },
    }
}

/// The values of the first `n` expressions, evaluated from left to right.
pub open spec fn replay_all(
    fns: Seq<Def>,
    scope: ScopeModel,
    es: Seq<Expr>,
    n: nat,
    depth: nat,
    tape: Seq<Event>,
) -> Replay<Seq<Val>>
    decreases depth, 1nat, es, 0nat, n,
{
    if n == 0 || n > es.len() {
        done(Seq::empty(), 0)
    } else {
        let before = replay_all(fns, scope, es, (n - 1) as nat, depth, tape);
        match before.outcome {
            Outcome::Done(vals) => {
                let next = replay(fns, scope, es[n - 1], depth, tape.skip(before.used as int));
                match next.outcome {
                    Outcome::Done(v) => done(vals.push(v), before.used + next.used),
                    _ => carry(before.used, halted(next)),
                }
            },
            _ => before,
        }
    }
}

/// The scope after the first `n` bindings of a `let`, each made in the scope
/// that the earlier ones left.
pub open spec fn replay_bind(
    fns: Seq<Def>,
    scope: ScopeModel,
    names: Seq<Seq<char>>,
    inits: Seq<Expr>,
    n: nat,
    depth: nat,
    tape: Seq<Event>,
) -> Replay<ScopeModel>
    decreases depth, 1nat, inits, 0nat, n,
{
    if n == 0 || n > inits.len() {
        done(scope, 0)
    } else {
        let before = replay_bind(fns, scope, names, inits, (n - 1) as nat, depth, tape);
        match before.outcome {
            Outcome::Done(inner) => {
                let next = replay(fns, inner, inits[n - 1], depth, tape.skip(before.used as int));
                match next.outcome {
                    Outcome::Done(v) => done(inner.push((names[n - 1], v)), before.used + next.used),
                    _ => carry(before.used, halted(next)),
                }
            },
            _ => before,
        }
    }
}

/// The vectors that the first `n` bindings of a `foreach` give, each of
/// `n_iters` values.
pub open spec fn replay_columns(
    fns: Seq<Def>,
    scope: ScopeModel,
    inits: Seq<Expr>,
    n: nat,
    n_iters: nat,
    depth: nat,
    tape: Seq<Event>,
) -> Replay<Seq<Seq<Val>>>
    decreases depth, 1nat, inits, 0nat, n,
{
    if n == 0 || n > inits.len() {
        done(Seq::empty(), 0)
    } else {
        let before = replay_columns(fns, scope, inits, (n - 1) as nat, n_iters, depth, tape);
        match before.outcome {
            Outcome::Done(columns) => {
                let next = replay(fns, scope, inits[n - 1], depth, tape.skip(before.used as int));
                match next.outcome {
                    Outcome::Done(Val::Vector(items)) => if items.len() == n_iters {
                        done(columns.push(items), before.used + next.used)
                    } else {
                        refused(foreach_wrong_length(), before.used + next.used)
                    },
                    Outcome::Done(_) => refused(foreach_not_vector(), before.used + next.used),
                    _ => carry(before.used, halted(next)),
                }
            },
            _ => before,
        }
    }
}

/// The values of the first `k` iterations of a `foreach`.
pub open spec fn replay_iterate(
    fns: Seq<Def>,
    scope: ScopeModel,
    names: Seq<Seq<char>>,
    columns: Seq<Seq<Val>>,
    body: Seq<Expr>,
    k: nat,
    depth: nat,
    tape: Seq<Event>,
) -> Replay<Seq<Val>>
    decreases depth, 1nat, body, 1nat, k,
{
    if k == 0 {
        done(Seq::empty(), 0)
    } else {
        let before = replay_iterate(fns, scope, names, columns, body, (k - 1) as nat, depth, tape);
        match before.outcome {
            Outcome::Done(results) => if body.len() == 0 {
                refused(foreach_without_body(), before.used)
            } else {
                let next = replay_all(
                    fns,
                    scope + iteration_bindings(names, columns, k - 1),
                    body,
                    body.len(),
                    depth,
                    tape.skip(before.used as int),
                );
                match next.outcome {
                    Outcome::Done(vals) => done(results.push(vals.last()), before.used + next.used),
                    _ => carry(before.used, halted(next)),
                }
            },
            _ => before,
        }
    }
}

/// The value of a `loop` after its first `k` iterations.
pub open spec fn replay_loop(
    fns: Seq<Def>,
    scope: ScopeModel,
    fn_name: Seq<char>,
    start: Val,
    vals: Seq<Val>,
    params: Seq<Expr>,
    k: nat,
    depth: nat,
    tape: Seq<Event>,
) -> Replay<Val>
    decreases depth, 1nat, params, 1nat, k,
{
    if k == 0 {
        done(start, 0)
    } else {
        let before = replay_loop(
            fns,
            scope,
            fn_name,
            start,
            vals,
            params,
            (k - 1) as nat,
            depth,
            tape,
        );
        match before.outcome {
            Outcome::Done(accumulator) => if k - 1 > i64::MAX {
                refused(loop_index_overflow(), before.used)
            } else {
                carry(
                    before.used,
                    replay_dispatch(
                        fns,
                        scope,
                        fn_name,
                        loop_arguments(k - 1, accumulator, vals),
                        depth,
                        tape.skip(before.used as int),
                    ),
                )
            },
            _ => before,
        }
    }
}

/// The function `name` applied to the arguments: the builtin operator of
/// that name, or else the defined function, whose body is evaluated in the
/// scope of the call with the parameters bound behind it. What a builtin
/// operator has the numerics compute is what the numerics answer.
pub open spec fn replay_dispatch(
    fns: Seq<Def>,
    scope: ScopeModel,
    name: Seq<char>,
    vals: Seq<Val>,
    depth: nat,
    tape: Seq<Event>,
) -> Replay<Val>
    decreases depth, 0nat, vals, 0nat, 0nat,
{
    match builtin_named(name) {
        Some(builtin) => match builtin_spec(builtin, vals) {
            Ok(Answer::Exactly(v)) => done(v, 0),
            Ok(Answer::Computed(computation)) => ask_compute(computation, tape),
            Err(message) => refused(message, 0),
        },
        None => match find_function(fns, name) {
            None => refused(function_not_found(name), 0),
            Some(f) => if vals.len() != f.params.len() {
                refused(wrong_arity(name), 0)
            } else if depth == 0 {
                refused(too_deep(), 0)
            } else {
                replay(
                    fns,
                    scope + parameter_bindings(f.params, vals),
                    f.body,
                    (depth - 1) as nat,
                    tape,
                )
            },
        },
    }
}

/// The replay of the end of a run: the event at `at` must tell the driver
/// that a run has ended with `value`.
pub open spec fn tell_end(value: Val, tape: Seq<Event>, at: nat) -> Replay<Val> {
    if at < tape.len() && tape[at as int] == (Event::End { value }) {
        done(value, at + 1)
    } else {
        stuck()
    }
}

/// Whether none of the events tells the driver of the end of a run.
pub open spec fn within_run(events: Seq<Event>) -> bool {
    forall|k: int| 0 <= k < events.len() ==> !(#[trigger] events[k] is End)
}

/// The values of the first `n` runs of the expression.
///
/// Each run is replayed behind the events of the runs before it. Its own
/// events are questions and computations, and behind them stands the event
/// that tells the driver of its end, with the value that the run gave. A
/// run that fails is the last: no event tells the driver of it.
pub open spec fn replay_runs(
    fns: Seq<Def>,
    scope: ScopeModel,
    e: Expr,
    n: nat,
    depth: nat,
    tape: Seq<Event>,
) -> Replay<Seq<Val>>
    decreases n,
{
    if n == 0 {
        done(Seq::empty(), 0)
    } else {
        let before = replay_runs(fns, scope, e, (n - 1) as nat, depth, tape);
        match before.outcome {
            Outcome::Done(vals) => {
                let run = replay(fns, scope, e, depth, tape.skip(before.used as int));
                if !within_run(tape.skip(before.used as int).take(run.used as int)) {
                    stuck()
                } else {
                    match run.outcome {
                        Outcome::Done(v) => {
                            let told = tell_end(v, tape, before.used + run.used);
                            match told.outcome {
                                Outcome::Done(_) => done(vals.push(v), told.used),
                                _ => stuck(),
                            }
                        },
                        _ => carry(before.used, halted(run)),
                    }
                }
            },
            _ => before,
        }
    }
}

/// Whether every computation among the events has an answer that the
/// numerics give for it.
pub open spec fn justified<N: Numerics>(numerics: &N, events: Seq<Event>) -> bool {
    forall|k: int|
        0 <= k < events.len() ==> ((#[trigger] events[k]) matches Event::Compute {
            computation,
            answer,
        } ==> computes(numerics, computation, answer))
}

/// Whether every event is a computation: the driver has no part in any of
/// them.
pub open spec fn driver_free(events: Seq<Event>) -> bool {
    forall|k: int| 0 <= k < events.len() ==> #[trigger] events[k] is Compute
}

/// Whether the tapes hold the same events at the first `n` places, as far
/// as the first tape goes.
pub open spec fn agree(first: Seq<Event>, second: Seq<Event>, n: nat) -> bool {
    forall|k: int| 0 <= k < n && k < first.len() ==> #[trigger] same_at(first, second, k)
}

/// Whether the second tape has the event that the first has at the place.
pub open spec fn same_at(first: Seq<Event>, second: Seq<Event>, k: int) -> bool {
    k < second.len() && first[k] == second[k]
}

/// Tapes that agree at the first places have the same event at each of
/// them.
pub proof fn lemma_agree_at(first: Seq<Event>, second: Seq<Event>, n: nat, k: int)
    requires
        agree(first, second, n),
        0 <= k < n,
        k < first.len(),
    ensures
        k < second.len(),
        first[k] == second[k],
{
    assert(same_at(first, second, k));
}

/// Tapes that agree at the first places agree behind as many of them as
/// one leaves out.
pub proof fn lemma_agree_skip(first: Seq<Event>, second: Seq<Event>, n: nat, m: nat)
    requires
        agree(first, second, n + m),
        n <= first.len(),
    ensures
        n <= second.len(),
        agree(first, second, n),
        agree(first.skip(n as int), second.skip(n as int), m),
{
    if n > 0 {
        lemma_agree_at(first, second, n + m, n - 1);
    }
    let a = first.skip(n as int);
    let b = second.skip(n as int);
    assert forall|k: int| 0 <= k < m && k < a.len() implies #[trigger] same_at(a, b, k) by {
        lemma_agree_at(first, second, n + m, n + k);
        assert(a[k] == first[n + k]);
        assert(b[k] == second[n + k]);
    }
}

/// Tapes that agree at the first places begin with the same events.
pub proof fn lemma_agree_take(first: Seq<Event>, second: Seq<Event>, n: nat)
    requires
        agree(first, second, n),
        n <= first.len(),
    ensures
        n <= second.len(),
        first.take(n as int) == second.take(n as int),
{
    if n > 0 {
        lemma_agree_at(first, second, n, n - 1);
    }
    assert forall|k: int| 0 <= k < n implies first[k] == second[k] by {
        lemma_agree_at(first, second, n, k);
    }
}

/// A replay looks at the events that it uses and at no other: it uses no
/// more events than the tape has, and on every tape that holds the same
/// events at those places it ends in the same way.
#[verifier::rlimit(60)]
pub proof fn lemma_replay_local(
    fns: Seq<Def>,
    scope: ScopeModel,
    e: Expr,
    depth: nat,
    tape: Seq<Event>,
    other: Seq<Event>,
)
    requires
        !(replay(fns, scope, e, depth, tape).outcome is Stuck),
        agree(tape, other, replay(fns, scope, e, depth, tape).used),
    ensures
        replay(fns, scope, e, depth, tape).used <= tape.len(),
        replay(fns, scope, e, depth, other) == replay(fns, scope, e, depth, tape),
    decreases depth, 1nat, e, 0nat, 0nat,
{
    match e {
        Expr::Let { names, inits, body } => {
            if inits.len() > 0 && body.len() > 0 {
                let bound = replay_bind(fns, scope, names, inits, inits.len(), depth, tape);
                lemma_bind_local(fns, scope, names, inits, inits.len(), depth, tape, other);
                match bound.outcome {
                    Outcome::Done(inner) => {
                        let rest = replay_all(
                            fns,
                            inner,
                            body,
                            body.len(),
                            depth,
                            tape.skip(bound.used as int),
                        );
                        lemma_agree_skip(tape, other, bound.used, rest.used);
                        lemma_all_local(
                            fns,
                            inner,
                            body,
                            body.len(),
                            depth,
                            tape.skip(bound.used as int),
                            other.skip(bound.used as int),
                        );
                    },
                    _ => {},
                }
            }
        },
        Expr::If(test, yes, no) => {
            let chosen = replay(fns, scope, *test, depth, tape);
            lemma_replay_local(fns, scope, *test, depth, tape, other);
            match chosen.outcome {
                Outcome::Done(Val::Boolean(b)) => {
                    let branch = if b {
                        *yes
                    } else {
                        *no
                    };
                    let rest = replay(fns, scope, branch, depth, tape.skip(chosen.used as int));
                    lemma_agree_skip(tape, other, chosen.used, rest.used);
                    lemma_replay_local(
                        fns,
                        scope,
                        branch,
                        depth,
                        tape.skip(chosen.used as int),
                        other.skip(chosen.used as int),
                    );
                },
                _ => {},
            }
        },
        Expr::Vector(items) => {
            lemma_all_local(fns, scope, items, items.len(), depth, tape, other);
        },
        Expr::Apply(name, args) => {
            let given = replay_all(fns, scope, args, args.len(), depth, tape);
            lemma_all_local(fns, scope, args, args.len(), depth, tape, other);
            match given.outcome {
                Outcome::Done(vals) => {
                    let rest = replay_dispatch(
                        fns,
                        scope,
                        name,
                        vals,
                        depth,
                        tape.skip(given.used as int),
                    );
                    lemma_agree_skip(tape, other, given.used, rest.used);
                    lemma_dispatch_local(
                        fns,
                        scope,
                        name,
                        vals,
                        depth,
                        tape.skip(given.used as int),
                        other.skip(given.used as int),
                    );
                },
                _ => {},
            }
        },
        Expr::Sample(dist, address) => {
            let from = replay(fns, scope, *dist, depth, tape);
            lemma_replay_local(fns, scope, *dist, depth, tape, other);
            match from.outcome {
                Outcome::Done(Val::Distribution(d)) => {
                    lemma_agree_at(tape, other, from.used + 1, from.used as int);
                },
                _ => {},
            }
        },
        Expr::Observe(dist, val, address) => {
            let under = replay(fns, scope, *dist, depth, tape);
            lemma_replay_local(fns, scope, *dist, depth, tape, other);
            match under.outcome {
                Outcome::Done(Val::Distribution(d)) => {
                    let seen = replay(fns, scope, *val, depth, tape.skip(under.used as int));
                    lemma_agree_skip(tape, other, under.used, seen.used);
                    lemma_replay_local(
                        fns,
                        scope,
                        *val,
                        depth,
                        tape.skip(under.used as int),
                        other.skip(under.used as int),
                    );
                    match seen.outcome {
                        Outcome::Done(v) => {
                            lemma_agree_at(
                                tape,
                                other,
                                under.used + seen.used + 1,
                                (under.used + seen.used) as int,
                            );
                        },
                        _ => {},
                    }
                },
                _ => {},
            }
        },
        Expr::ForEach { n_iters, names, inits, body } => {
            let given = replay_columns(fns, scope, inits, inits.len(), n_iters, depth, tape);
            lemma_columns_local(fns, scope, inits, inits.len(), n_iters, depth, tape, other);
            match given.outcome {
                Outcome::Done(columns) => {
                    let rest = replay_iterate(
                        fns,
                        scope,
                        names,
                        columns,
                        body,
                        n_iters,
                        depth,
                        tape.skip(given.used as int),
                    );
                    lemma_agree_skip(tape, other, given.used, rest.used);
                    lemma_iterate_local(
                        fns,
                        scope,
                        names,
                        columns,
                        body,
                        n_iters,
                        depth,
                        tape.skip(given.used as int),
                        other.skip(given.used as int),
                    );
                },
                _ => {},
            }
        },
        Expr::Loop { n_iters, accumulator, fn_name, params } => {
            let first = replay(fns, scope, *accumulator, depth, tape);
            lemma_replay_local(fns, scope, *accumulator, depth, tape, other);
            match first.outcome {
                Outcome::Done(start) => {
                    let given = replay_all(
                        fns,
                        scope,
                        params,
                        params.len(),
                        depth,
                        tape.skip(first.used as int),
                    );
                    lemma_agree_skip(tape, other, first.used, given.used);
                    lemma_all_local(
                        fns,
                        scope,
                        params,
                        params.len(),
                        depth,
                        tape.skip(first.used as int),
                        other.skip(first.used as int),
                    );
                    match given.outcome {
                        Outcome::Done(vals) => {
                            let from = first.used + given.used;
                            let rest = replay_loop(
                                fns,
                                scope,
                                fn_name,
                                start,
                                vals,
                                params,
                                n_iters,
                                depth,
                                tape.skip(from as int),
                            );
                            lemma_agree_skip(tape, other, from, rest.used);
                            lemma_loop_local(
                                fns,
                                scope,
                                fn_name,
                                start,
                                vals,
                                params,
                                n_iters,
                                depth,
                                tape.skip(from as int),
                                other.skip(from as int),
                            );
                        },
                        _ => {},
                    }
                },
                _ => {},
            }
        },
        _ => {},
    }
}

/// The same for the replay of a sequence of expressions.
pub proof fn lemma_all_local(
    fns: Seq<Def>,
    scope: ScopeModel,
    es: Seq<Expr>,
    n: nat,
    depth: nat,
    tape: Seq<Event>,
    other: Seq<Event>,
)
    requires
        !(replay_all(fns, scope, es, n, depth, tape).outcome is Stuck),
        agree(tape, other, replay_all(fns, scope, es, n, depth, tape).used),
    ensures
        replay_all(fns, scope, es, n, depth, tape).used <= tape.len(),
        replay_all(fns, scope, es, n, depth, other) == replay_all(fns, scope, es, n, depth, tape),
    decreases depth, 1nat, es, 0nat, n,
{
    if !(n == 0 || n > es.len()) {
        let before = replay_all(fns, scope, es, (n - 1) as nat, depth, tape);
        lemma_all_local(fns, scope, es, (n - 1) as nat, depth, tape, other);
        match before.outcome {
            Outcome::Done(vals) => {
                let next = replay(fns, scope, es[n - 1], depth, tape.skip(before.used as int));
                lemma_agree_skip(tape, other, before.used, next.used);
                lemma_replay_local(
                    fns,
                    scope,
                    es[n - 1],
                    depth,
                    tape.skip(before.used as int),
                    other.skip(before.used as int),
                );
            },
            _ => {},
        }
    }
}

/// The same for the replay of the bindings of a `let`.
pub proof fn lemma_bind_local(
    fns: Seq<Def>,
    scope: ScopeModel,
    names: Seq<Seq<char>>,
    inits: Seq<Expr>,
    n: nat,
    depth: nat,
    tape: Seq<Event>,
    other: Seq<Event>,
)
    requires
        !(replay_bind(fns, scope, names, inits, n, depth, tape).outcome is Stuck),
        agree(tape, other, replay_bind(fns, scope, names, inits, n, depth, tape).used),
    ensures
        replay_bind(fns, scope, names, inits, n, depth, tape).used <= tape.len(),
        replay_bind(fns, scope, names, inits, n, depth, other) == replay_bind(
            fns,
            scope,
            names,
            inits,
            n,
            depth,
            tape,
        ),
    decreases depth, 1nat, inits, 0nat, n,
{
    if !(n == 0 || n > inits.len()) {
        let before = replay_bind(fns, scope, names, inits, (n - 1) as nat, depth, tape);
        lemma_bind_local(fns, scope, names, inits, (n - 1) as nat, depth, tape, other);
        match before.outcome {
            Outcome::Done(inner) => {
                let next = replay(fns, inner, inits[n - 1], depth, tape.skip(before.used as int));
                lemma_agree_skip(tape, other, before.used, next.used);
                lemma_replay_local(
                    fns,
                    inner,
                    inits[n - 1],
                    depth,
                    tape.skip(before.used as int),
                    other.skip(before.used as int),
                );
            },
            _ => {},
        }
    }
}

/// The same for the replay of the bindings of a `foreach`.
pub proof fn lemma_columns_local(
    fns: Seq<Def>,
    scope: ScopeModel,
    inits: Seq<Expr>,
    n: nat,
    n_iters: nat,
    depth: nat,
    tape: Seq<Event>,
    other: Seq<Event>,
)
    requires
        !(replay_columns(fns, scope, inits, n, n_iters, depth, tape).outcome is Stuck),
        agree(tape, other, replay_columns(fns, scope, inits, n, n_iters, depth, tape).used),
    ensures
        replay_columns(fns, scope, inits, n, n_iters, depth, tape).used <= tape.len(),
        replay_columns(fns, scope, inits, n, n_iters, depth, other) == replay_columns(
            fns,
            scope,
            inits,
            n,
            n_iters,
            depth,
            tape,
        ),
    decreases depth, 1nat, inits, 0nat, n,
{
    if !(n == 0 || n > inits.len()) {
        let before = replay_columns(fns, scope, inits, (n - 1) as nat, n_iters, depth, tape);
        lemma_columns_local(fns, scope, inits, (n - 1) as nat, n_iters, depth, tape, other);
        match before.outcome {
            Outcome::Done(columns) => {
                let next = replay(fns, scope, inits[n - 1], depth, tape.skip(before.used as int));
                lemma_agree_skip(tape, other, before.used, next.used);
                lemma_replay_local(
                    fns,
                    scope,
                    inits[n - 1],
                    depth,
                    tape.skip(before.used as int),
                    other.skip(before.used as int),
                );
            },
            _ => {},
        }
    }
}

/// The same for the replay of the iterations of a `foreach`.
pub proof fn lemma_iterate_local(
    fns: Seq<Def>,
    scope: ScopeModel,
    names: Seq<Seq<char>>,
    columns: Seq<Seq<Val>>,
    body: Seq<Expr>,
    k: nat,
    depth: nat,
    tape: Seq<Event>,
    other: Seq<Event>,
)
    requires
        !(replay_iterate(fns, scope, names, columns, body, k, depth, tape).outcome is Stuck),
        agree(tape, other, replay_iterate(fns, scope, names, columns, body, k, depth, tape).used),
    ensures
        replay_iterate(fns, scope, names, columns, body, k, depth, tape).used <= tape.len(),
        replay_iterate(fns, scope, names, columns, body, k, depth, other) == replay_iterate(
            fns,
            scope,
            names,
            columns,
            body,
            k,
            depth,
            tape,
        ),
    decreases depth, 1nat, body, 1nat, k,
{
    if k > 0 {
        let before = replay_iterate(fns, scope, names, columns, body, (k - 1) as nat, depth, tape);
        lemma_iterate_local(fns, scope, names, columns, body, (k - 1) as nat, depth, tape, other);
        match before.outcome {
            Outcome::Done(results) => {
                if body.len() > 0 {
                    let inner = scope + iteration_bindings(names, columns, k - 1);
                    let next = replay_all(
                        fns,
                        inner,
                        body,
                        body.len(),
                        depth,
                        tape.skip(before.used as int),
                    );
                    lemma_agree_skip(tape, other, before.used, next.used);
                    lemma_all_local(
                        fns,
                        inner,
                        body,
                        body.len(),
                        depth,
                        tape.skip(before.used as int),
                        other.skip(before.used as int),
                    );
                }
            },
            _ => {},
        }
    }
}

/// The same for the replay of the iterations of a `loop`.
pub proof fn lemma_loop_local(
    fns: Seq<Def>,
    scope: ScopeModel,
    fn_name: Seq<char>,
    start: Val,
    vals: Seq<Val>,
    params: Seq<Expr>,
    k: nat,
    depth: nat,
    tape: Seq<Event>,
    other: Seq<Event>,
)
    requires
        !(replay_loop(fns, scope, fn_name, start, vals, params, k, depth, tape).outcome is Stuck),
        agree(
            tape,
            other,
            replay_loop(fns, scope, fn_name, start, vals, params, k, depth, tape).used,
        ),
    ensures
        replay_loop(fns, scope, fn_name, start, vals, params, k, depth, tape).used <= tape.len(),
        replay_loop(fns, scope, fn_name, start, vals, params, k, depth, other) == replay_loop(
            fns,
            scope,
            fn_name,
            start,
            vals,
            params,
            k,
            depth,
            tape,
        ),
    decreases depth, 1nat, params, 1nat, k,
{
    if k > 0 {
        let before = replay_loop(
            fns,
            scope,
            fn_name,
            start,
            vals,
            params,
            (k - 1) as nat,
            depth,
            tape,
        );
        lemma_loop_local(
            fns,
            scope,
            fn_name,
            start,
            vals,
            params,
            (k - 1) as nat,
            depth,
            tape,
            other,
        );
        match before.outcome {
            Outcome::Done(accumulator) => {
                if !(k - 1 > i64::MAX) {
                    let args = loop_arguments(k - 1, accumulator, vals);
                    let next = replay_dispatch(
                        fns,
                        scope,
                        fn_name,
                        args,
                        depth,
                        tape.skip(before.used as int),
                    );
                    lemma_agree_skip(tape, other, before.used, next.used);
                    lemma_dispatch_local(
                        fns,
                        scope,
                        fn_name,
                        args,
                        depth,
                        tape.skip(before.used as int),
                        other.skip(before.used as int),
                    );
                }
            },
            _ => {},
        }
    }
}

/// The same for the replay of an application.
pub proof fn lemma_dispatch_local(
    fns: Seq<Def>,
    scope: ScopeModel,
    name: Seq<char>,
    vals: Seq<Val>,
    depth: nat,
    tape: Seq<Event>,
    other: Seq<Event>,
)
    requires
        !(replay_dispatch(fns, scope, name, vals, depth, tape).outcome is Stuck),
        agree(tape, other, replay_dispatch(fns, scope, name, vals, depth, tape).used),
    ensures
        replay_dispatch(fns, scope, name, vals, depth, tape).used <= tape.len(),
        replay_dispatch(fns, scope, name, vals, depth, other) == replay_dispatch(
            fns,
            scope,
            name,
            vals,
            depth,
            tape,
        ),
    decreases depth, 0nat, vals, 0nat, 0nat,
{
    match builtin_named(name) {
        Some(builtin) => match builtin_spec(builtin, vals) {
            Ok(Answer::Computed(computation)) => {
                lemma_agree_at(tape, other, 1, 0);
            },
            _ => {},
        },
        None => match find_function(fns, name) {
            Some(f) => {
                if vals.len() == f.params.len() && depth > 0 {
                    lemma_replay_local(
                        fns,
                        scope + parameter_bindings(f.params, vals),
                        f.body,
                        (depth - 1) as nat,
                        tape,
                        other,
                    );
                }
            },
            None => {},
        },
    }
}

/// A replay that is not stuck ends in the same way with more events
/// behind.
pub proof fn lemma_replay_extend(
    fns: Seq<Def>,
    scope: ScopeModel,
    e: Expr,
    depth: nat,
    tape: Seq<Event>,
    more: Seq<Event>,
)
    requires
        !(replay(fns, scope, e, depth, tape).outcome is Stuck),
    ensures
        replay(fns, scope, e, depth, tape + more) == replay(fns, scope, e, depth, tape),
{
    lemma_replay_local(fns, scope, e, depth, tape, tape + more);
}

/// The same for the replay of a sequence of expressions.
pub proof fn lemma_all_extend(
    fns: Seq<Def>,
    scope: ScopeModel,
    es: Seq<Expr>,
    n: nat,
    depth: nat,
    tape: Seq<Event>,
    more: Seq<Event>,
)
    requires
        !(replay_all(fns, scope, es, n, depth, tape).outcome is Stuck),
    ensures
        replay_all(fns, scope, es, n, depth, tape + more) == replay_all(
            fns,
            scope,
            es,
            n,
            depth,
            tape,
        ),
{
    lemma_all_local(fns, scope, es, n, depth, tape, tape + more);
}

/// The same for the replay of the bindings of a `let`.
pub proof fn lemma_bind_extend(
    fns: Seq<Def>,
    scope: ScopeModel,
    names: Seq<Seq<char>>,
    inits: Seq<Expr>,
    n: nat,
    depth: nat,
    tape: Seq<Event>,
    more: Seq<Event>,
)
    requires
        !(replay_bind(fns, scope, names, inits, n, depth, tape).outcome is Stuck),
    ensures
        replay_bind(fns, scope, names, inits, n, depth, tape + more) == replay_bind(
            fns,
            scope,
            names,
            inits,
            n,
            depth,
            tape,
        ),
{
    lemma_bind_local(fns, scope, names, inits, n, depth, tape, tape + more);
}

/// The same for the replay of the bindings of a `foreach`.
pub proof fn lemma_columns_extend(
    fns: Seq<Def>,
    scope: ScopeModel,
    inits: Seq<Expr>,
    n: nat,
    n_iters: nat,
    depth: nat,
    tape: Seq<Event>,
    more: Seq<Event>,
)
    requires
        !(replay_columns(fns, scope, inits, n, n_iters, depth, tape).outcome is Stuck),
    ensures
        replay_columns(fns, scope, inits, n, n_iters, depth, tape + more) == replay_columns(
            fns,
            scope,
            inits,
            n,
            n_iters,
            depth,
            tape,
        ),
{
    lemma_columns_local(fns, scope, inits, n, n_iters, depth, tape, tape + more);
}

/// The same for the replay of the iterations of a `foreach`.
pub proof fn lemma_iterate_extend(
    fns: Seq<Def>,
    scope: ScopeModel,
    names: Seq<Seq<char>>,
    columns: Seq<Seq<Val>>,
    body: Seq<Expr>,
    k: nat,
    depth: nat,
    tape: Seq<Event>,
    more: Seq<Event>,
)
    requires
        !(replay_iterate(fns, scope, names, columns, body, k, depth, tape).outcome is Stuck),
    ensures
        replay_iterate(fns, scope, names, columns, body, k, depth, tape + more) == replay_iterate(
            fns,
            scope,
            names,
            columns,
            body,
            k,
            depth,
            tape,
        ),
{
    lemma_iterate_local(fns, scope, names, columns, body, k, depth, tape, tape + more);
}

/// The same for the replay of the iterations of a `loop`.
pub proof fn lemma_loop_extend(
    fns: Seq<Def>,
    scope: ScopeModel,
    fn_name: Seq<char>,
    start: Val,
    vals: Seq<Val>,
    params: Seq<Expr>,
    k: nat,
    depth: nat,
    tape: Seq<Event>,
    more: Seq<Event>,
)
    requires
        !(replay_loop(fns, scope, fn_name, start, vals, params, k, depth, tape).outcome is Stuck),
    ensures
        replay_loop(fns, scope, fn_name, start, vals, params, k, depth, tape + more)
            == replay_loop(fns, scope, fn_name, start, vals, params, k, depth, tape),
{
    lemma_loop_local(fns, scope, fn_name, start, vals, params, k, depth, tape, tape + more);
}

/// Once the replay of a prefix has failed, the replay of every longer
/// prefix fails in the same way.
pub proof fn lemma_all_failed(
    fns: Seq<Def>,
    scope: ScopeModel,
    es: Seq<Expr>,
    i: nat,
    n: nat,
    depth: nat,
    tape: Seq<Event>,
)
    requires
        i <= n <= es.len(),
        replay_all(fns, scope, es, i, depth, tape).outcome is Failed,
    ensures
        replay_all(fns, scope, es, n, depth, tape) == replay_all(fns, scope, es, i, depth, tape),
    decreases n - i,
{
    if i < n {
        lemma_all_failed(fns, scope, es, i, (n - 1) as nat, depth, tape);
    }
}

/// The same for the bindings of a `let`.
pub proof fn lemma_bind_failed(
    fns: Seq<Def>,
    scope: ScopeModel,
    names: Seq<Seq<char>>,
    inits: Seq<Expr>,
    i: nat,
    n: nat,
    depth: nat,
    tape: Seq<Event>,
)
    requires
        i <= n <= inits.len(),
        replay_bind(fns, scope, names, inits, i, depth, tape).outcome is Failed,
    ensures
        replay_bind(fns, scope, names, inits, n, depth, tape) == replay_bind(
            fns,
            scope,
            names,
            inits,
            i,
            depth,
            tape,
        ),
    decreases n - i,
{
    if i < n {
        lemma_bind_failed(fns, scope, names, inits, i, (n - 1) as nat, depth, tape);
    }
}

/// The same for the bindings of a `foreach`.
pub proof fn lemma_columns_failed(
    fns: Seq<Def>,
    scope: ScopeModel,
    inits: Seq<Expr>,
    i: nat,
    n: nat,
    n_iters: nat,
    depth: nat,
    tape: Seq<Event>,
)
    requires
        i <= n <= inits.len(),
        replay_columns(fns, scope, inits, i, n_iters, depth, tape).outcome is Failed,
    ensures
        replay_columns(fns, scope, inits, n, n_iters, depth, tape) == replay_columns(
            fns,
            scope,
            inits,
            i,
            n_iters,
            depth,
            tape,
        ),
    decreases n - i,
{
    if i < n {
        lemma_columns_failed(fns, scope, inits, i, (n - 1) as nat, n_iters, depth, tape);
    }
}

/// The same for the iterations of a `foreach`.
pub proof fn lemma_iterate_failed(
    fns: Seq<Def>,
    scope: ScopeModel,
    names: Seq<Seq<char>>,
    columns: Seq<Seq<Val>>,
    body: Seq<Expr>,
    i: nat,
    n: nat,
    depth: nat,
    tape: Seq<Event>,
)
    requires
        i <= n,
        replay_iterate(fns, scope, names, columns, body, i, depth, tape).outcome is Failed,
    ensures
        replay_iterate(fns, scope, names, columns, body, n, depth, tape) == replay_iterate(
            fns,
            scope,
            names,
            columns,
            body,
            i,
            depth,
            tape,
        ),
    decreases n - i,
{
    if i < n {
        lemma_iterate_failed(fns, scope, names, columns, body, i, (n - 1) as nat, depth, tape);
    }
}

/// The same for the iterations of a `loop`.
pub proof fn lemma_loop_failed(
    fns: Seq<Def>,
    scope: ScopeModel,
    fn_name: Seq<char>,
    start: Val,
    vals: Seq<Val>,
    params: Seq<Expr>,
    i: nat,
    n: nat,
    depth: nat,
    tape: Seq<Event>,
)
    requires
        i <= n,
        replay_loop(fns, scope, fn_name, start, vals, params, i, depth, tape).outcome is Failed,
    ensures
        replay_loop(fns, scope, fn_name, start, vals, params, n, depth, tape) == replay_loop(
            fns,
            scope,
            fn_name,
            start,
            vals,
            params,
            i,
            depth,
            tape,
        ),
    decreases n - i,
{
    if i < n {
        lemma_loop_failed(fns, scope, fn_name, start, vals, params, i, (n - 1) as nat, depth, tape);
    }
}

/// The replay of runs looks at the events that it uses and at no other.
pub proof fn lemma_runs_local(
    fns: Seq<Def>,
    scope: ScopeModel,
    e: Expr,
    n: nat,
    depth: nat,
    tape: Seq<Event>,
    other: Seq<Event>,
)
    requires
        !(replay_runs(fns, scope, e, n, depth, tape).outcome is Stuck),
        agree(tape, other, replay_runs(fns, scope, e, n, depth, tape).used),
    ensures
        replay_runs(fns, scope, e, n, depth, tape).used <= tape.len(),
        replay_runs(fns, scope, e, n, depth, other) == replay_runs(fns, scope, e, n, depth, tape),
    decreases n,
{
    if n > 0 {
        let before = replay_runs(fns, scope, e, (n - 1) as nat, depth, tape);
        let whole = replay_runs(fns, scope, e, n, depth, tape);
        lemma_runs_local(fns, scope, e, (n - 1) as nat, depth, tape, other);
        match before.outcome {
            Outcome::Done(vals) => {
                let run = replay(fns, scope, e, depth, tape.skip(before.used as int));
                lemma_agree_skip(tape, other, before.used, run.used);
                lemma_replay_local(
                    fns,
                    scope,
                    e,
                    depth,
                    tape.skip(before.used as int),
                    other.skip(before.used as int),
                );
                lemma_agree_take(
                    tape.skip(before.used as int),
                    other.skip(before.used as int),
                    run.used,
                );
                if run.outcome is Done {
                    lemma_agree_at(tape, other, whole.used, (before.used + run.used) as int);
                }
            },
            _ => {},
        }
    }
}

/// A replay of runs that is not stuck ends in the same way with more
/// events behind.
pub proof fn lemma_runs_extend(
    fns: Seq<Def>,
    scope: ScopeModel,
    e: Expr,
    n: nat,
    depth: nat,
    tape: Seq<Event>,
    more: Seq<Event>,
)
    requires
        !(replay_runs(fns, scope, e, n, depth, tape).outcome is Stuck),
    ensures
        replay_runs(fns, scope, e, n, depth, tape + more) == replay_runs(
            fns,
            scope,
            e,
            n,
            depth,
            tape,
        ),
{
    lemma_runs_local(fns, scope, e, n, depth, tape, tape + more);
}

/// Once a run has failed, the replay of more runs fails in the same way.
pub proof fn lemma_runs_failed(
    fns: Seq<Def>,
    scope: ScopeModel,
    e: Expr,
    i: nat,
    n: nat,
    depth: nat,
    tape: Seq<Event>,
)
    requires
        i <= n,
        replay_runs(fns, scope, e, i, depth, tape).outcome is Failed,
    ensures
        replay_runs(fns, scope, e, n, depth, tape) == replay_runs(fns, scope, e, i, depth, tape),
    decreases n - i,
{
    if i < n {
        lemma_runs_failed(fns, scope, e, i, (n - 1) as nat, depth, tape);
    }
}

/// Behind runs that are done, a run that is done and the event that ends
/// it with its value make one run more.
pub proof fn lemma_runs_one_more(
    fns: Seq<Def>,
    scope: ScopeModel,
    e: Expr,
    n: nat,
    depth: nat,
    before: Seq<Event>,
    values: Seq<Val>,
    run: Seq<Event>,
    v: Val,
)
    requires
        replay_runs(fns, scope, e, n, depth, before) == done(values, before.len()),
        replay(fns, scope, e, depth, run) == done(v, run.len()),
        within_run(run),
    ensures
        replay_runs(fns, scope, e, n + 1, depth, (before + run).push(Event::End { value: v }))
            == done(values.push(v), before.len() + run.len() + 1),
{
    let end = Event::End { value: v };
    let tape = (before + run).push(end);
    assert(tape =~= before + (run + seq![end]));
    lemma_runs_extend(fns, scope, e, n, depth, before, run + seq![end]);
    assert(tape.skip(before.len() as int) =~= run + seq![end]);
    lemma_replay_extend(fns, scope, e, depth, run, seq![end]);
}

/// Behind runs that are done, a run that fails makes every greater number
/// of runs fail in the same way.
pub proof fn lemma_runs_last(
    fns: Seq<Def>,
    scope: ScopeModel,
    e: Expr,
    n: nat,
    m: nat,
    depth: nat,
    before: Seq<Event>,
    values: Seq<Val>,
    run: Seq<Event>,
    failure: Failure,
)
    requires
        n < m,
        replay_runs(fns, scope, e, n, depth, before) == done(values, before.len()),
        replay(fns, scope, e, depth, run) == failed::<Val>(failure, run.len()),
        within_run(run),
    ensures
        replay_runs(fns, scope, e, m, depth, before + run) == failed::<Seq<Val>>(
            failure,
            before.len() + run.len(),
        ),
{
    let tape = before + run;
    lemma_runs_extend(fns, scope, e, n, depth, before, run);
    assert(tape.skip(before.len() as int) =~= run);
    lemma_runs_failed(fns, scope, e, n + 1, m, depth, tape);
}

/// The events of runs that are done, taken apart: the events of the runs
/// but the last, the events of the last run, and the event that ends it.
/// The result holds the two sequences of events, the values of the runs but
/// the last, and the value of the last run.
pub proof fn lemma_runs_apart(
    fns: Seq<Def>,
    scope: ScopeModel,
    e: Expr,
    n: nat,
    depth: nat,
    events: Seq<Event>,
    values: Seq<Val>,
) -> (parts: (Seq<Event>, Seq<Event>, Seq<Val>, Val))
    requires
        n > 0,
        replay_runs(fns, scope, e, n, depth, events) == done(values, events.len()),
    ensures
        events == (parts.0 + parts.1).push(Event::End { value: parts.3 }),
        values == parts.2.push(parts.3),
        replay_runs(fns, scope, e, (n - 1) as nat, depth, parts.0) == done(
            parts.2,
            parts.0.len(),
        ),
        replay(fns, scope, e, depth, parts.1) == done(parts.3, parts.1.len()),
        within_run(parts.1),
{
    let earlier = replay_runs(fns, scope, e, (n - 1) as nat, depth, events);
    let rest = events.skip(earlier.used as int);
    let last = replay(fns, scope, e, depth, rest);
    let before = events.take(earlier.used as int);
    let run = rest.take(last.used as int);
    let v = last.outcome->Done_0;
    assert forall|k: int| 0 <= k < earlier.used && k < events.len() implies #[trigger] same_at(
        events,
        before,
        k,
    ) by {}
    lemma_runs_local(fns, scope, e, (n - 1) as nat, depth, events, before);
    assert forall|k: int| 0 <= k < last.used && k < rest.len() implies #[trigger] same_at(
        rest,
        run,
        k,
    ) by {}
    lemma_replay_local(fns, scope, e, depth, rest, run);
    (before, run, earlier.outcome->Done_0, v)
}

/// Behind the events of a first evaluation stand those of the second, and
/// where neither holds the end of a run, nor does the whole.
pub proof fn lemma_join(first: Seq<Event>, second: Seq<Event>)
    ensures
        (first + second).len() == first.len() + second.len(),
        (first + second).skip(first.len() as int) == second,
        within_run(first) && within_run(second) ==> within_run(first + second),
{
}

} // verus!
