//! The evaluator: it walks an expression in a scope and gives its value.
//!
//! What an evaluation gives depends on what the driver and the numerics
//! answer. The contracts here say so by the events of the evaluation: the
//! questions that it asked and the answers that it got, in their order.
//! Those events lead the driver from its state before to its state after,
//! and the replay of [`crate::semantics`] on them gives what came out.
use vstd::prelude::*;
use crate::addresses::{assign_variable_numbers, numbered_program, program_sites, too_many_sites};
use crate::ast::{
    address_model, binding_inits, binding_names, exprs, lemma_expression_view, names, Def,
    Definition, Expr, Expression, ForEach, Ident, Let, Loop, Program,
};
use crate::distributions::Numerics;
use crate::functions::{apply_builtin, builtin_named, builtin_spec, find_builtin, Answer};
use crate::inference::{
    counted, leads, lemma_leads_nowhere, lemma_leads_on, lemma_leads_one, Conduct, InferenceAlg,
};
use crate::semantics::{
    find_function, iteration_bindings, lemma_all_extend, lemma_all_failed, lemma_bind_extend,
    lemma_bind_failed, lemma_columns_extend, lemma_columns_failed, lemma_iterate_extend,
    lemma_iterate_failed, lemma_join, lemma_loop_extend, lemma_loop_failed, lemma_replay_extend,
    lemma_runs_last, lemma_runs_one_more, loop_arguments, lookup, parameter_bindings, replay,
    replay_all, replay_bind, replay_columns, replay_dispatch, replay_iterate, replay_loop,
    replay_runs, within_run, Event, Failure, Outcome, Replay, ScopeModel,
};
use crate::types::{
    duplicate_all, fail, fails_with, lemma_vector_view, lemma_views_push, result_model, views,
    RuntimeError, Val, Value,
};

verus! {

/// A variable of the scope: its name and its value.
#[derive(Debug, PartialEq)]
pub struct Binding {
    pub ident: String,
    pub val: Value,
}

impl View for Binding {
    type V = (Seq<char>, Val);

    open spec fn view(&self) -> (Seq<char>, Val) {
        (self.ident@, self.val@)
    }
}

/// The model of a scope.
pub open spec fn scope_model(s: Seq<Binding>) -> ScopeModel {
    Seq::new(s.len(), |i: int| s[i]@)
}

/// A defined function: the names of its parameters, and its body.
#[derive(Debug, PartialEq)]
pub struct Function {
    pub parameters: Vec<Ident>,
    pub body: Expression,
}

/// The model of a function table.
pub open spec fn table_model(t: Seq<(Ident, Function)>) -> Seq<Def> {
    Seq::new(
        t.len(),
        |i: int| Def { name: t[i].0@, params: names(t[i].1.parameters@), body: t[i].1.body@ },
    )
}

/// The value of the variable in the scope: a copy of the value of the
/// innermost binding of that name.
pub fn lookup_var(scope: &Vec<Binding>, var: &Ident) -> (r: Option<Value>)
    ensures
        match lookup(scope_model(scope@), var@) {
            Some(v) => r matches Some(x) && x@ == v,
            None => r is None,
        },
{
    let ghost m = scope_model(scope@);
    let mut i: usize = scope.len();
    proof {
        assert(m.take(i as int) =~= m);
    }
    while i > 0
        invariant
            i <= scope.len(),
            m == scope_model(scope@),
            lookup(m, var@) == lookup(m.take(i as int), var@),
        decreases i,
    {
        i -= 1;
        proof {
            assert(m.take(i + 1).drop_last() =~= m.take(i as int));
        }
        let binding = &scope[i];
        if binding.ident == var.0 {
            return Some(binding.val.clone());
        }
    }
    None
}

/// The place in the function table of the definition of `name`: that of the
/// last definition of that name.
pub fn find_user_function(table: &Vec<(Ident, Function)>, name: &String) -> (r: Option<usize>)
    ensures
        match find_function(table_model(table@), name@) {
            Some(f) => r matches Some(i) && i < table.len() && table_model(table@)[i as int] == f,
            None => r is None,
        },
{
    let ghost m = table_model(table@);
    let mut i: usize = table.len();
    proof {
        assert(m.take(i as int) =~= m);
    }
    while i > 0
        invariant
            i <= table.len(),
            m == table_model(table@),
            find_function(m, name@) == find_function(m.take(i as int), name@),
        decreases i,
    {
        i -= 1;
        proof {
            assert(m.take(i + 1).drop_last() =~= m.take(i as int));
        }
        if table[i].0.0 == *name {
            return Some(i);
        }
    }
    None
}

/// Binds the parameters to the arguments, behind the bindings of the scope.
fn bind_parameters(scope: &mut Vec<Binding>, params: &Vec<Ident>, vals: Vec<Value>)
    requires
        params.len() == vals.len(),
    ensures
        final(scope)@.len() == old(scope)@.len() + params.len(),
        final(scope)@.subrange(0, old(scope)@.len() as int) == old(scope)@,
        scope_model(final(scope)@) == scope_model(old(scope)@) + parameter_bindings(
            names(params@),
            views(vals@),
        ),
{
    let ghost entry = scope@;
    let n = vals.len();
    let mut rest = vals;
    let mut reversed: Vec<Value> = Vec::new();
    while rest.len() > 0
        invariant
            rest.len() + reversed.len() == n,
            n == vals.len(),
            forall|k: int| 0 <= k < rest.len() ==> rest@[k] == vals@[k],
            forall|k: int| 0 <= k < reversed.len() ==> reversed@[k] == vals@[n - 1 - k],
        decreases rest.len(),
    {
        match rest.pop() {
            Some(v) => {
                reversed.push(v);
            },
            None => {},
        }
    }
    let mut i: usize = 0;
    while i < n
        invariant
            i <= n,
            n == vals.len(),
            n == params.len(),
            reversed.len() == n - i,
            forall|k: int| 0 <= k < reversed.len() ==> reversed@[k] == vals@[n - 1 - k],
            scope@.len() == entry.len() + i,
            scope@.subrange(0, entry.len() as int) == entry,
            forall|k: int| 0 <= k < i ==> (#[trigger] scope@[entry.len() + k])@ == (
                params@[k]@,
                vals@[k]@,
            ),
        decreases n - i,
    {
        match reversed.pop() {
            Some(v) => {
                scope.push(Binding { ident: params[i].0.clone(), val: v });
            },
            None => {},
        }
        i += 1;
    }
    proof {
        let a = scope_model(scope@);
        let b = scope_model(entry) + parameter_bindings(names(params@), views(vals@));
        assert forall|k: int| 0 <= k < a.len() implies a[k] == b[k] by {
            if k >= entry.len() {
                assert(scope@[entry.len() + (k - entry.len())]@ == (
                    params@[k - entry.len()]@,
                    vals@[k - entry.len()]@,
                ));
            }
        }
    }
}

/// The model of a scope with one more binding.
pub proof fn lemma_scope_push(s: Seq<Binding>, b: Binding)
    ensures
        scope_model(s.push(b)) == scope_model(s).push(b@),
{
}

/// An error with the message `head`, `name`, `tail`.
fn fail_naming<T>(head: &str, name: &String, tail: &str) -> (r: Result<T, RuntimeError>)
    ensures
        fails_with(r, head@ + name@ + tail@),
{
    let mut message = String::from_str(head);
    message.append(name.as_str());
    message.append(tail);
    Err(RuntimeError::new(message))
}

/// Whether `r` is an error of the kind `failure`: an error with the message
/// and no cause, or the very error that the driver raised.
pub open spec fn fails_as<T>(r: Result<T, RuntimeError>, failure: Failure) -> bool {
    match failure {
        Failure::Message(message) => fails_with(r, message),
        Failure::Raised(e) => r matches Err(x) && x == e,
    }
}

/// Whether the replay of the events explains the result `r`: it uses all
/// the events, and it ends as `r` says.
pub open spec fn explains(replayed: Replay<Val>, events: Seq<Event>, r: Result<Value, RuntimeError>) -> bool {
    &&& replayed.used == events.len()
    &&& match replayed.outcome {
        Outcome::Done(v) => r matches Ok(x) && x@ == v,
        Outcome::Failed(failure) => fails_as(r, failure),
        Outcome::Stuck => false,
    }
}

/// The same for the results of a sequence of expressions.
pub open spec fn explains_all(
    replayed: Replay<Seq<Val>>,
    events: Seq<Event>,
    r: Result<Vec<Value>, RuntimeError>,
) -> bool {
    &&& replayed.used == events.len()
    &&& match replayed.outcome {
        Outcome::Done(vals) => r matches Ok(xs) && views(xs@) == vals,
        Outcome::Failed(failure) => fails_as(r, failure),
        Outcome::Stuck => false,
    }
}

/// Whether the replay of the events of some runs explains the result `r`:
/// it uses all the events, and it ends with all the runs done where `r` is
/// no error, and else with the failure that `r` is.
pub open spec fn explains_runs(
    replayed: Replay<Seq<Val>>,
    events: Seq<Event>,
    r: Result<(), RuntimeError>,
) -> bool {
    &&& replayed.used == events.len()
    &&& match replayed.outcome {
        Outcome::Done(_) => r is Ok,
        Outcome::Failed(failure) => fails_as(r, failure),
        Outcome::Stuck => false,
    }
}

/// What every evaluation leaves behind: the scope as it found it, and the
/// driver where the events lead: every question to the driver among them is
/// one that the driver was asked and answered so, in this order, and every
/// computation has an answer that the numerics give. None of the events is
/// the end of a run.
pub open spec fn accounted<T: Conduct<N>, N: Numerics>(
    numerics: &N,
    entry_scope: Seq<Binding>,
    exit_scope: Seq<Binding>,
    entry_alg: T,
    exit_alg: T,
    events: Seq<Event>,
) -> bool {
    &&& exit_scope == entry_scope
    &&& within_run(events)
    &&& leads(numerics, entry_alg, events, exit_alg)
}

/// The value of the expression in the scope, and the events of the
/// evaluation.
///
/// The scope is left as it was found, whatever comes out. The events are
/// the questions that the evaluation asked of the driver and of the
/// numerics, in their order and with the answers that it got, and [`replay`]
/// on them gives what comes out. `depth` bounds how deep calls of defined
/// functions may nest.
fn eval_expr<T: InferenceAlg + Conduct<N>, N: Numerics>(
    functions: &Vec<(Ident, Function)>,
    scope: &mut Vec<Binding>,
    alg: &mut T,
    numerics: &N,
    expr: &Expression,
    depth: usize,
) -> (out: (Result<Value, RuntimeError>, Ghost<Seq<Event>>))
    requires
        old(alg).wf(),
    ensures
        final(alg).wf(),
        final(alg).finished() == old(alg).finished(),
        accounted(numerics, old(scope)@, final(scope)@, *old(alg), *final(alg), out.1@),
        explains(
            replay(
                table_model(functions@),
                scope_model(old(scope)@),
                expr@,
                depth as nat,
                out.1@,
            ),
            out.1@,
            out.0,
        ),
    decreases depth, 1nat, expr,
{
    let ghost fns = table_model(functions@);
    let ghost sm = scope_model(scope@);
    let ghost none = Seq::<Event>::empty();
    let ghost a0 = *alg;
    proof {
        lemma_expression_view(*expr);
        lemma_leads_nowhere(numerics, a0);
    }
    match expr {
        Expression::Variable(var) => match lookup_var(scope, var) {
            Some(val) => (Ok(val), Ghost(none)),
            None => (fail_naming("Variable ", &var.0, " not defined."), Ghost(none)),
        },
        Expression::Boolean(b) => (Ok(Value::Boolean(*b)), Ghost(none)),
        Expression::Integer(i) => (Ok(Value::Integer(*i)), Ghost(none)),
        Expression::Float(x) => (Ok(Value::Float(*x)), Ghost(none)),
        Expression::Null => (Ok(Value::Null), Ghost(none)),
        Expression::Let(l) => eval_let(functions, scope, alg, numerics, l, depth),
        Expression::If(test, yes, no) => {
            let (chosen, first) = eval_expr(functions, scope, alg, numerics, test, depth);
            let ghost ev1 = first@;
            let ghost a1 = *alg;
            match chosen {
                Err(e) => (Err(e), Ghost(ev1)),
                Ok(Value::Boolean(b)) => {
                    let branch = if b {
                        yes
                    } else {
                        no
                    };
                    let (r, second) = eval_expr(functions, scope, alg, numerics, branch, depth);
                    let ghost ev2 = second@;
                    proof {
                        lemma_replay_extend(fns, sm, test@, depth as nat, ev1, ev2);
                        lemma_join(ev1, ev2);
                        lemma_leads_on(numerics, a0, ev1, a1, ev2, *alg);
                    }
                    (r, Ghost(ev1 + ev2))
                },
                Ok(_) => (fail("The test of `if` must evaluate to a boolean."), Ghost(ev1)),
            }
        },
        Expression::Vector(items) => {
            let (vals, events) = eval_all(functions, scope, alg, numerics, items, depth);
            match vals {
                Ok(vals) => {
                    proof {
                        lemma_vector_view(vals);
                    }
                    (Ok(Value::Vector(vals)), events)
                },
                Err(e) => (Err(e), events),
            }
        },
        Expression::FunctionApplication(ident, args) => {
            let (vals, first) = eval_all(functions, scope, alg, numerics, args, depth);
            let ghost ev1 = first@;
            let ghost a1 = *alg;
            match vals {
                Ok(vals) => {
                    let (r, second) = dispatch_function(
                        functions,
                        scope,
                        alg,
                        numerics,
                        &ident.0,
                        vals,
                        depth,
                    );
                    let ghost ev2 = second@;
                    proof {
                        lemma_all_extend(
                            fns,
                            sm,
                            exprs(args@),
                            args.len() as nat,
                            depth as nat,
                            ev1,
                            ev2,
                        );
                        lemma_join(ev1, ev2);
                        lemma_leads_on(numerics, a0, ev1, a1, ev2, *alg);
                    }
                    (r, Ghost(ev1 + ev2))
                },
                Err(e) => (Err(e), Ghost(ev1)),
            }
        },
        Expression::Sample(dist, number) => {
            let (val, first) = eval_expr(functions, scope, alg, numerics, dist, depth);
            let ghost ev1 = first@;
            let ghost a1 = *alg;
            match val {
                Err(e) => (Err(e), Ghost(ev1)),
                Ok(Value::Distribution(d)) => {
                    let r = alg.sample(numerics, &d, *number);
                    let ghost event = Event::Sample {
                        dist: d@,
                        address: address_model(*number),
                        answer: result_model(r),
                    };
                    let ghost events = ev1.push(event);
                    proof {
                        assert(events =~= ev1 + seq![event]);
                        lemma_replay_extend(fns, sm, dist@, depth as nat, ev1, seq![event]);
                        lemma_leads_one(numerics, a1, event, *alg);
                        lemma_leads_on(numerics, a0, ev1, a1, seq![event], *alg);
                    }
                    (r, Ghost(events))
                },
                Ok(_) => (fail("Sample must only be called on a Distribution value."), Ghost(ev1)),
            }
        },
        Expression::Observe(dist, val, number) => {
            let (under, first) = eval_expr(functions, scope, alg, numerics, dist, depth);
            let ghost ev1 = first@;
            let ghost a1 = *alg;
            let d = match under {
                Err(e) => {
                    return (Err(e), Ghost(ev1));
                },
                Ok(Value::Distribution(d)) => d,
                Ok(_) => {
                    return (
                        fail("First expression in `observe` must evaluate to a distribution."),
                        Ghost(ev1),
                    );
                },
            };
            let (seen, second) = eval_expr(functions, scope, alg, numerics, val, depth);
            let ghost ev2 = second@;
            let ghost a2 = *alg;
            proof {
                lemma_replay_extend(fns, sm, dist@, depth as nat, ev1, ev2);
                lemma_join(ev1, ev2);
                lemma_leads_on(numerics, a0, ev1, a1, ev2, a2);
            }
            match seen {
                Err(e) => (Err(e), Ghost(ev1 + ev2)),
                Ok(v) => {
                    let ghost value = v@;
                    let r = alg.observe(numerics, &d, v, *number);
                    let ghost event = Event::Observe {
                        dist: d@,
                        value,
                        address: address_model(*number),
                        answer: result_model(r),
                    };
                    let ghost before = ev1 + ev2;
                    let ghost events = before.push(event);
                    proof {
                        assert(events =~= ev1 + (ev2 + seq![event]));
                        assert(events =~= before + seq![event]);
                        lemma_replay_extend(fns, sm, dist@, depth as nat, ev1, ev2 + seq![event]);
                        lemma_join(ev1, ev2 + seq![event]);
                        lemma_replay_extend(fns, sm, val@, depth as nat, ev2, seq![event]);
                        lemma_leads_one(numerics, a2, event, *alg);
                        lemma_leads_on(numerics, a0, before, a2, seq![event], *alg);
                    }
                    (r, Ghost(events))
                },
            }
        },
        Expression::ForEach(f) => eval_foreach(functions, scope, alg, numerics, f, depth),
        Expression::Loop(l) => eval_loop(functions, scope, alg, numerics, l, depth),
    }
}

/// The values of the expressions, evaluated from left to right in the
/// scope, and the events of the evaluation.
fn eval_all<T: InferenceAlg + Conduct<N>, N: Numerics>(
    functions: &Vec<(Ident, Function)>,
    scope: &mut Vec<Binding>,
    alg: &mut T,
    numerics: &N,
    args: &Vec<Expression>,
    depth: usize,
) -> (out: (Result<Vec<Value>, RuntimeError>, Ghost<Seq<Event>>))
    requires
        old(alg).wf(),
    ensures
        final(alg).wf(),
        final(alg).finished() == old(alg).finished(),
        accounted(numerics, old(scope)@, final(scope)@, *old(alg), *final(alg), out.1@),
        out.0 matches Ok(vals) ==> vals.len() == args.len(),
        explains_all(
            replay_all(
                table_model(functions@),
                scope_model(old(scope)@),
                exprs(args@),
                args.len() as nat,
                depth as nat,
                out.1@,
            ),
            out.1@,
            out.0,
        ),
    decreases depth, 1nat, args,
{
    let ghost fns = table_model(functions@);
    let ghost sm = scope_model(scope@);
    let ghost es = exprs(args@);
    let ghost entry = scope@;
    let ghost entry_alg = *alg;
    let ghost mut events = Seq::<Event>::empty();
    let mut vals: Vec<Value> = Vec::new();
    let mut i: usize = 0;
    assert(views(vals@) =~= Seq::<Val>::empty());
    proof {
        lemma_leads_nowhere(numerics, entry_alg);
    }
    while i < args.len()
        invariant
            i <= args.len(),
            alg.wf(),
            alg.finished() == old(alg).finished(),
            entry == old(scope)@,
            entry_alg == *old(alg),
            scope@ == entry,
            sm == scope_model(entry),
            fns == table_model(functions@),
            es == exprs(args@),
            vals.len() == i,
            within_run(events),
            leads(numerics, entry_alg, events, *alg),
            replay_all(fns, sm, es, i as nat, depth as nat, events) == crate::semantics::done(
                views(vals@),
                events.len(),
            ),
        decreases args.len() - i,
    {
        let ghost before = vals@;
        let ghost mid = *alg;
        let (item, more) = eval_expr(functions, scope, alg, numerics, &args[i], depth);
        let ghost ev = more@;
        proof {
            lemma_all_extend(fns, sm, es, i as nat, depth as nat, events, ev);
            lemma_join(events, ev);
            lemma_leads_on(numerics, entry_alg, events, mid, ev, *alg);
        }
        match item {
            Ok(val) => {
                vals.push(val);
                proof {
                    lemma_views_push(before, val);
                    events = events + ev;
                }
            },
            Err(e) => {
                proof {
                    lemma_all_failed(
                        fns,
                        sm,
                        es,
                        (i + 1) as nat,
                        args.len() as nat,
                        depth as nat,
                        events + ev,
                    );
                }
                return (Err(e), Ghost(events + ev));
            },
        }
        i += 1;
    }
    (Ok(vals), Ghost(events))
}

/// The value of a `let`, and the events of the evaluation.
fn eval_let<T: InferenceAlg + Conduct<N>, N: Numerics>(
    functions: &Vec<(Ident, Function)>,
    scope: &mut Vec<Binding>,
    alg: &mut T,
    numerics: &N,
    l: &Let,
    depth: usize,
) -> (out: (Result<Value, RuntimeError>, Ghost<Seq<Event>>))
    requires
        old(alg).wf(),
    ensures
        final(alg).wf(),
        final(alg).finished() == old(alg).finished(),
        accounted(numerics, old(scope)@, final(scope)@, *old(alg), *final(alg), out.1@),
        explains(
            replay(
                table_model(functions@),
                scope_model(old(scope)@),
                Expr::Let {
                    names: binding_names(l.bindings@),
                    inits: binding_inits(l.bindings@),
                    body: exprs(l.body@),
                },
                depth as nat,
                out.1@,
            ),
            out.1@,
            out.0,
        ),
    decreases depth, 1nat, l,
{
    let ghost none = Seq::<Event>::empty();
    proof {
        lemma_leads_nowhere(numerics, *alg);
    }
    if l.bindings.len() == 0 {
        return (fail("Let must have at least one binding."), Ghost(none));
    }
    if l.body.len() == 0 {
        return (fail("Let must have a body."), Ghost(none));
    }
    let ghost fns = table_model(functions@);
    let ghost entry = scope@;
    let ghost sm = scope_model(entry);
    let ghost entry_alg = *alg;
    let ghost names = binding_names(l.bindings@);
    let ghost inits = binding_inits(l.bindings@);
    let ghost mut events = Seq::<Event>::empty();
    let old_scope_count = scope.len();
    let mut i: usize = 0;
    while i < l.bindings.len()
        invariant
            i <= l.bindings.len(),
            l.bindings.len() > 0,
            l.body.len() > 0,
            alg.wf(),
            alg.finished() == old(alg).finished(),
            entry == old(scope)@,
            entry_alg == *old(alg),
            scope@.len() == old_scope_count + i,
            old_scope_count == entry.len(),
            scope@.subrange(0, old_scope_count as int) == entry,
            sm == scope_model(entry),
            fns == table_model(functions@),
            names == binding_names(l.bindings@),
            inits == binding_inits(l.bindings@),
            within_run(events),
            leads(numerics, entry_alg, events, *alg),
            replay_bind(fns, sm, names, inits, i as nat, depth as nat, events)
                == crate::semantics::done(scope_model(scope@), events.len()),
        decreases l.bindings.len() - i,
    {
        let binding = &l.bindings[i];
        let ghost before = scope@;
        let ghost mid = *alg;
        let (item, more) = eval_expr(functions, scope, alg, numerics, &binding.1, depth);
        let ghost ev = more@;
        proof {
            lemma_bind_extend(fns, sm, names, inits, i as nat, depth as nat, events, ev);
            lemma_join(events, ev);
            lemma_leads_on(numerics, entry_alg, events, mid, ev, *alg);
        }
        match item {
            Ok(val) => {
                let bound = Binding { ident: binding.0.0.clone(), val };
                scope.push(bound);
                proof {
                    lemma_scope_push(before, bound);
                    events = events + ev;
                }
            },
            Err(e) => {
                scope.truncate(old_scope_count);
                proof {
                    lemma_bind_failed(
                        fns,
                        sm,
                        names,
                        inits,
                        (i + 1) as nat,
                        l.bindings.len() as nat,
                        depth as nat,
                        events + ev,
                    );
                }
                return (Err(e), Ghost(events + ev));
            },
        }
        i += 1;
    }
    let ghost mid = *alg;
    let (vals, more) = eval_all(functions, scope, alg, numerics, &l.body, depth);
    let ghost ev = more@;
    scope.truncate(old_scope_count);
    proof {
        lemma_leads_on(numerics, entry_alg, events, mid, ev, *alg);
        lemma_bind_extend(
            fns,
            sm,
            names,
            inits,
            l.bindings.len() as nat,
            depth as nat,
            events,
            ev,
        );
        lemma_join(events, ev);
    }
    match vals {
        Ok(vals) => {
            let mut vals = vals;
            match vals.pop() {
                Some(v) => {
                    (Ok(v), Ghost(events + ev))
                },
                None => (fail("Let must have a body."), Ghost(events + ev)),
            }
        },
        Err(e) => (Err(e), Ghost(events + ev)),
    }
}

/// The models of the vectors, one for one.
pub open spec fn column_views(columns: Seq<Vec<Value>>) -> Seq<Seq<Val>> {
    Seq::new(columns.len(), |i: int| views(columns[i]@))
}

/// The value of a `foreach`, and the events of the evaluation.
fn eval_foreach<T: InferenceAlg + Conduct<N>, N: Numerics>(
    functions: &Vec<(Ident, Function)>,
    scope: &mut Vec<Binding>,
    alg: &mut T,
    numerics: &N,
    f: &ForEach,
    depth: usize,
) -> (out: (Result<Value, RuntimeError>, Ghost<Seq<Event>>))
    requires
        old(alg).wf(),
    ensures
        final(alg).wf(),
        final(alg).finished() == old(alg).finished(),
        accounted(numerics, old(scope)@, final(scope)@, *old(alg), *final(alg), out.1@),
        explains(
            replay(
                table_model(functions@),
                scope_model(old(scope)@),
                Expr::ForEach {
                    n_iters: f.n_iters as nat,
                    names: binding_names(f.bindings@),
                    inits: binding_inits(f.bindings@),
                    body: exprs(f.body@),
                },
                depth as nat,
                out.1@,
            ),
            out.1@,
            out.0,
        ),
    decreases depth, 1nat, f,
{
    let ghost fns = table_model(functions@);
    let ghost entry = scope@;
    let ghost sm = scope_model(entry);
    let ghost entry_alg = *alg;
    let ghost names = binding_names(f.bindings@);
    let ghost inits = binding_inits(f.bindings@);
    let ghost body = exprs(f.body@);
    let ghost mut events = Seq::<Event>::empty();
    let n_iters = f.n_iters;
    let mut columns: Vec<Vec<Value>> = Vec::new();
    let mut i: usize = 0;
    assert(column_views(columns@) =~= Seq::<Seq<Val>>::empty());
    proof {
        lemma_leads_nowhere(numerics, entry_alg);
    }
    while i < f.bindings.len()
        invariant
            i <= f.bindings.len(),
            alg.wf(),
            alg.finished() == old(alg).finished(),
            entry == old(scope)@,
            entry_alg == *old(alg),
            scope@ == entry,
            sm == scope_model(entry),
            fns == table_model(functions@),
            names == binding_names(f.bindings@),
            inits == binding_inits(f.bindings@),
            body == exprs(f.body@),
            n_iters == f.n_iters,
            columns.len() == i,
            forall|k: int| 0 <= k < i ==> (#[trigger] columns@[k]).len() == n_iters,
            within_run(events),
            leads(numerics, entry_alg, events, *alg),
            replay_columns(fns, sm, inits, i as nat, n_iters as nat, depth as nat, events)
                == crate::semantics::done(column_views(columns@), events.len()),
        decreases f.bindings.len() - i,
    {
        let binding = &f.bindings[i];
        let ghost before = columns@;
        let ghost mid = *alg;
        let (item, more) = eval_expr(functions, scope, alg, numerics, &binding.1, depth);
        let ghost ev = more@;
        proof {
            lemma_columns_extend(
                fns,
                sm,
                inits,
                i as nat,
                n_iters as nat,
                depth as nat,
                events,
                ev,
            );
            lemma_join(events, ev);
            lemma_leads_on(numerics, entry_alg, events, mid, ev, *alg);
            let ghost good = item is Ok && item->Ok_0 is Vector && item->Ok_0->Vector_0.len()
                == n_iters;
            if !good {
                lemma_columns_failed(
                    fns,
                    sm,
                    inits,
                    (i + 1) as nat,
                    f.bindings.len() as nat,
                    n_iters as nat,
                    depth as nat,
                    events + ev,
                );
            }
        }
        match item {
            Ok(Value::Vector(v)) => {
                proof {
                    lemma_vector_view(v);
                }
                if v.len() != n_iters {
                    return (
                        fail("`foreach` binding vectors must have the specified length."),
                        Ghost(events + ev),
                    );
                }
                columns.push(v);
                proof {
                    assert(column_views(columns@) =~= column_views(before).push(views(v@)));
                    events = events + ev;
                }
            },
            Ok(_) => {
                return (fail("`foreach` binding values must be vectors."), Ghost(events + ev));
            },
            Err(e) => {
                return (Err(e), Ghost(events + ev));
            },
        }
        i += 1;
    }
    let ghost cs = column_views(columns@);
    let ghost given = events;
    let ghost mut rounds = Seq::<Event>::empty();
    let old_scope_count = scope.len();
    let mut return_vec: Vec<Value> = Vec::new();
    let mut k: usize = 0;
    assert(views(return_vec@) =~= Seq::<Val>::empty());
    while k < n_iters
        invariant
            k <= n_iters,
            alg.wf(),
            alg.finished() == old(alg).finished(),
            entry == old(scope)@,
            entry_alg == *old(alg),
            scope@ == entry,
            old_scope_count == entry.len(),
            sm == scope_model(entry),
            fns == table_model(functions@),
            names == binding_names(f.bindings@),
            inits == binding_inits(f.bindings@),
            body == exprs(f.body@),
            n_iters == f.n_iters,
            columns.len() == f.bindings.len(),
            forall|b: int| 0 <= b < columns.len() ==> (#[trigger] columns@[b]).len() == n_iters,
            cs == column_views(columns@),
            within_run(given + rounds),
            leads(numerics, entry_alg, given + rounds, *alg),
            replay_columns(
                fns,
                sm,
                inits,
                f.bindings.len() as nat,
                n_iters as nat,
                depth as nat,
                given,
            ) == crate::semantics::done(cs, given.len()),
            replay_iterate(fns, sm, names, cs, body, k as nat, depth as nat, rounds)
                == crate::semantics::done(views(return_vec@), rounds.len()),
        decreases n_iters - k,
    {
        if f.body.len() == 0 {
            proof {
                lemma_iterate_failed(
                    fns,
                    sm,
                    names,
                    cs,
                    body,
                    (k + 1) as nat,
                    n_iters as nat,
                    depth as nat,
                    rounds,
                );
                lemma_join(given, rounds);
            }
            return (fail("`foreach` must have a body."), Ghost(given + rounds));
        }
        let mut b: usize = 0;
        while b < f.bindings.len()
            invariant
                b <= f.bindings.len(),
                k < n_iters,
                columns.len() == f.bindings.len(),
                forall|c: int| 0 <= c < columns.len() ==> (#[trigger] columns@[c]).len() == n_iters,
                scope@.len() == old_scope_count + b,
                old_scope_count == entry.len(),
                scope@.subrange(0, old_scope_count as int) == entry,
                forall|c: int|
                    0 <= c < b ==> (#[trigger] scope@[old_scope_count + c])@ == (
                        f.bindings@[c].0@,
                        columns@[c]@[k as int]@,
                    ),
            decreases f.bindings.len() - b,
        {
            let ghost before = scope@;
            let bound = Binding { ident: f.bindings[b].0.0.clone(), val: columns[b][k].clone() };
            scope.push(bound);
            b += 1;
        }
        proof {
            let inner = scope_model(scope@);
            let expected = sm + iteration_bindings(names, cs, k as int);
            assert forall|c: int| 0 <= c < inner.len() implies inner[c] == expected[c] by {
                if c >= entry.len() {
                    let d = c - entry.len();
                    assert(scope@[old_scope_count + d]@ == (
                        f.bindings@[d].0@,
                        columns@[d]@[k as int]@,
                    ));
                }
            }
            assert(inner =~= expected);
        }
        let ghost mid = *alg;
        let (vals, more) = eval_all(functions, scope, alg, numerics, &f.body, depth);
        let ghost ev = more@;
        scope.truncate(old_scope_count);
        proof {
            lemma_iterate_extend(fns, sm, names, cs, body, k as nat, depth as nat, rounds, ev);
            lemma_join(rounds, ev);
            lemma_join(given, rounds + ev);
            assert(given + (rounds + ev) =~= (given + rounds) + ev);
            lemma_leads_on(numerics, entry_alg, given + rounds, mid, ev, *alg);
        }
        let mut vals = match vals {
            Ok(vals) => vals,
            Err(e) => {
                proof {
                    lemma_iterate_failed(
                        fns,
                        sm,
                        names,
                        cs,
                        body,
                        (k + 1) as nat,
                        n_iters as nat,
                        depth as nat,
                        rounds + ev,
                    );
                    lemma_columns_extend(
                        fns,
                        sm,
                        inits,
                        f.bindings.len() as nat,
                        n_iters as nat,
                        depth as nat,
                        given,
                        rounds + ev,
                    );
                }
                return (Err(e), Ghost(given + (rounds + ev)));
            },
        };
        let ghost before = return_vec@;
        match vals.pop() {
            Some(v) => {
                return_vec.push(v);
                proof {
                    lemma_views_push(before, v);
                    rounds = rounds + ev;
                }
            },
            None => {},
        }
        k += 1;
    }
    proof {
        lemma_vector_view(return_vec);
        lemma_columns_extend(
            fns,
            sm,
            inits,
            f.bindings.len() as nat,
            n_iters as nat,
            depth as nat,
            given,
            rounds,
        );
        lemma_join(given, rounds);
    }
    (Ok(Value::Vector(return_vec)), Ghost(given + rounds))
}

/// The value of a `loop`, and the events of the evaluation.
fn eval_loop<T: InferenceAlg + Conduct<N>, N: Numerics>(
    functions: &Vec<(Ident, Function)>,
    scope: &mut Vec<Binding>,
    alg: &mut T,
    numerics: &N,
    l: &Loop,
    depth: usize,
) -> (out: (Result<Value, RuntimeError>, Ghost<Seq<Event>>))
    requires
        old(alg).wf(),
    ensures
        final(alg).wf(),
        final(alg).finished() == old(alg).finished(),
        accounted(numerics, old(scope)@, final(scope)@, *old(alg), *final(alg), out.1@),
        explains(
            replay(
                table_model(functions@),
                scope_model(old(scope)@),
                Expr::Loop {
                    n_iters: l.n_iters as nat,
                    accumulator: Box::new(l.accumulator@),
                    fn_name: l.fn_name@,
                    params: exprs(l.params@),
                },
                depth as nat,
                out.1@,
            ),
            out.1@,
            out.0,
        ),
    decreases depth, 1nat, l,
{
    let ghost fns = table_model(functions@);
    let ghost entry = scope@;
    let ghost sm = scope_model(entry);
    let ghost entry_alg = *alg;
    let ghost params = exprs(l.params@);
    let (first, first_events) = eval_expr(functions, scope, alg, numerics, &l.accumulator, depth);
    let ghost ev1 = first_events@;
    let ghost a1 = *alg;
    let mut accumulator = match first {
        Ok(v) => v,
        Err(e) => {
            return (Err(e), Ghost(ev1));
        },
    };
    let ghost start = accumulator@;
    let (given, given_events) = eval_all(functions, scope, alg, numerics, &l.params, depth);
    let ghost ev2 = given_events@;
    proof {
        lemma_replay_extend(fns, sm, l.accumulator@, depth as nat, ev1, ev2);
        lemma_join(ev1, ev2);
        lemma_leads_on(numerics, entry_alg, ev1, a1, ev2, *alg);
    }
    let param_vals = match given {
        Ok(vals) => vals,
        Err(e) => {
            return (Err(e), Ghost(ev1 + ev2));
        },
    };
    let ghost pvals = views(param_vals@);
    let ghost head = ev1 + ev2;
    let ghost mut rounds = Seq::<Event>::empty();
    let mut i: usize = 0;
    while i < l.n_iters
        invariant
            i <= l.n_iters,
            alg.wf(),
            alg.finished() == old(alg).finished(),
            entry == old(scope)@,
            entry_alg == *old(alg),
            scope@ == entry,
            sm == scope_model(entry),
            fns == table_model(functions@),
            params == exprs(l.params@),
            pvals == views(param_vals@),
            head == ev1 + ev2,
            replay(fns, sm, l.accumulator@, depth as nat, ev1) == crate::semantics::done(
                start,
                ev1.len(),
            ),
            replay_all(fns, sm, params, l.params.len() as nat, depth as nat, ev2)
                == crate::semantics::done(pvals, ev2.len()),
            within_run(head + rounds),
            leads(numerics, entry_alg, head + rounds, *alg),
            replay_loop(fns, sm, l.fn_name@, start, pvals, params, i as nat, depth as nat, rounds)
                == crate::semantics::done(accumulator@, rounds.len()),
        decreases l.n_iters - i,
    {
        if i as u64 > i64::MAX as u64 {
            proof {
                lemma_loop_failed(
                    fns,
                    sm,
                    l.fn_name@,
                    start,
                    pvals,
                    params,
                    (i + 1) as nat,
                    l.n_iters as nat,
                    depth as nat,
                    rounds,
                );
                lemma_loop_whole(
                    fns,
                    sm,
                    *l,
                    depth as nat,
                    ev1,
                    ev2,
                    rounds,
                    start,
                    pvals,
                );
            }
            return (fail("Loop index overflow."), Ghost(head + rounds));
        }
        let idx = i as i64;
        let mut args: Vec<Value> = Vec::new();
        args.push(Value::Integer(idx));
        args.push(accumulator);
        let mut copies = duplicate_all(&param_vals);
        args.append(&mut copies);
        proof {
            assert(views(args@) =~= loop_arguments(i as int, accumulator@, pvals));
        }
        let ghost mid = *alg;
        let (next, more) = dispatch_function(
            functions,
            scope,
            alg,
            numerics,
            &l.fn_name.0,
            args,
            depth,
        );
        let ghost ev = more@;
        proof {
            lemma_leads_on(numerics, entry_alg, head + rounds, mid, ev, *alg);
            lemma_loop_extend(
                fns,
                sm,
                l.fn_name@,
                start,
                pvals,
                params,
                i as nat,
                depth as nat,
                rounds,
                ev,
            );
            lemma_join(rounds, ev);
            assert(head + (rounds + ev) =~= (head + rounds) + ev);
        }
        match next {
            Ok(v) => {
                accumulator = v;
                proof {
                    rounds = rounds + ev;
                }
            },
            Err(e) => {
                proof {
                    lemma_loop_failed(
                        fns,
                        sm,
                        l.fn_name@,
                        start,
                        pvals,
                        params,
                        (i + 1) as nat,
                        l.n_iters as nat,
                        depth as nat,
                        rounds + ev,
                    );
                    lemma_loop_whole(
                        fns,
                        sm,
                        *l,
                        depth as nat,
                        ev1,
                        ev2,
                        rounds + ev,
                        start,
                        pvals,
                    );
                }
                return (Err(e), Ghost(head + (rounds + ev)));
            },
        }
        i += 1;
    }
    proof {
        lemma_loop_whole(fns, sm, *l, depth as nat, ev1, ev2, rounds, start, pvals);
    }
    (Ok(accumulator), Ghost(head + rounds))
}

/// The replay of a `loop` on the events of its accumulator, its parameters
/// and its iterations, one behind the other, is the replay of its
/// iterations behind the events of the first two.
proof fn lemma_loop_whole(
    fns: Seq<Def>,
    sm: ScopeModel,
    l: Loop,
    depth: nat,
    ev1: Seq<Event>,
    ev2: Seq<Event>,
    rounds: Seq<Event>,
    start: Val,
    pvals: Seq<Val>,
)
    requires
        replay(fns, sm, l.accumulator@, depth, ev1) == crate::semantics::done(start, ev1.len()),
        replay_all(fns, sm, exprs(l.params@), l.params.len() as nat, depth, ev2)
            == crate::semantics::done(pvals, ev2.len()),
        !(replay_loop(
            fns,
            sm,
            l.fn_name@,
            start,
            pvals,
            exprs(l.params@),
            l.n_iters as nat,
            depth,
            rounds,
        ).outcome is Stuck),
    ensures
        replay(
            fns,
            sm,
            Expr::Loop {
                n_iters: l.n_iters as nat,
                accumulator: Box::new(l.accumulator@),
                fn_name: l.fn_name@,
                params: exprs(l.params@),
            },
            depth,
            (ev1 + ev2) + rounds,
        ) == crate::semantics::carry(
            ev1.len() + ev2.len(),
            replay_loop(
                fns,
                sm,
                l.fn_name@,
                start,
                pvals,
                exprs(l.params@),
                l.n_iters as nat,
                depth,
                rounds,
            ),
        ),
{
    let whole = (ev1 + ev2) + rounds;
    assert(whole =~= ev1 + (ev2 + rounds));
    lemma_replay_extend(fns, sm, l.accumulator@, depth, ev1, ev2 + rounds);
    lemma_join(ev1, ev2 + rounds);
    lemma_all_extend(fns, sm, exprs(l.params@), l.params.len() as nat, depth, ev2, rounds);
    assert(whole.skip((ev1.len() + ev2.len()) as int) =~= rounds);
}

/// The function `name` applied to the arguments, and the events of the
/// application: the builtin operator of that name, or else the function
/// that the table defines. The body of a defined function is evaluated in
/// the scope of the call, with the parameters bound behind it.
fn dispatch_function<T: InferenceAlg + Conduct<N>, N: Numerics>(
    functions: &Vec<(Ident, Function)>,
    scope: &mut Vec<Binding>,
    alg: &mut T,
    numerics: &N,
    name: &String,
    vals: Vec<Value>,
    depth: usize,
) -> (out: (Result<Value, RuntimeError>, Ghost<Seq<Event>>))
    requires
        old(alg).wf(),
    ensures
        final(alg).wf(),
        final(alg).finished() == old(alg).finished(),
        accounted(numerics, old(scope)@, final(scope)@, *old(alg), *final(alg), out.1@),
        explains(
            replay_dispatch(
                table_model(functions@),
                scope_model(old(scope)@),
                name@,
                views(vals@),
                depth as nat,
                out.1@,
            ),
            out.1@,
            out.0,
        ),
        builtin_named(name@) matches Some(builtin) ==> crate::functions::meets(
            numerics,
            out.0,
            builtin_spec(builtin, views(vals@)),
        ),
    decreases depth, 0nat, vals,
{
    let ghost none = Seq::<Event>::empty();
    let ghost args = views(vals@);
    proof {
        lemma_leads_nowhere(numerics, *alg);
    }
    match find_builtin(name) {
        Some(builtin) => {
            let r = apply_builtin(numerics, builtin, vals);
            let ghost events = match builtin_spec(builtin, args) {
                Ok(Answer::Computed(computation)) => seq![
                    Event::Compute { computation, answer: r->Ok_0@ },
                ],
                _ => none,
            };
            proof {
                match builtin_spec(builtin, args) {
                    Ok(Answer::Computed(computation)) => {
                        lemma_leads_one(
                            numerics,
                            *alg,
                            Event::Compute { computation, answer: r->Ok_0@ },
                            *alg,
                        );
                    },
                    _ => {},
                }
            }
            return (r, Ghost(events));
        },
        None => {},
    }
    let index = match find_user_function(functions, name) {
        Some(index) => index,
        None => {
            return (fail_naming("Could not find function `", name, "`"), Ghost(none));
        },
    };
    let function = &functions[index].1;
    if vals.len() != function.parameters.len() {
        let mut message = name.clone();
        message.append(" was called with the wrong number of arguments.");
        return (Err(RuntimeError::new(message)), Ghost(none));
    }
    if depth == 0 {
        return (fail("Function calls are nested too deeply."), Ghost(none));
    }
    let old_scope_count = scope.len();
    bind_parameters(scope, &function.parameters, vals);
    let (val, events) = eval_expr(functions, scope, alg, numerics, &function.body, depth - 1);
    scope.truncate(old_scope_count);
    (val, events)
}

/// How deep calls of defined functions may nest in an interpreter that
/// [`Interpreter::new`] makes.
pub const DEFAULT_MAX_DEPTH: usize = 256;

/// An evaluator with its state: the scope, the function table, the
/// inference driver and the numerics.
pub struct Interpreter<T: InferenceAlg + Conduct<N>, N: Numerics> {
    /// The variables in scope, the innermost last.
    pub scope: Vec<Binding>,
    /// The defined functions; of two with one name the later one counts.
    pub functions: Vec<(Ident, Function)>,
    /// The driver that answers `sample` and `observe`.
    pub inference_alg: T,
    /// The numerics that compute on floating-point numbers.
    pub numerics: N,
    /// How deep calls of defined functions may nest.
    pub max_depth: usize,
    /// The questions that the evaluations have asked of the driver and of
    /// the numerics so far, with the answers, in their order.
    pub events: Ghost<Seq<Event>>,
}

impl<T: InferenceAlg + Conduct<N>, N: Numerics> Interpreter<T, N> {
    /// An interpreter with an empty scope and no defined function.
    pub fn new(inference_alg: T, numerics: N) -> (r: Self)
        ensures
            r.scope@.len() == 0,
            r.functions@.len() == 0,
            r.inference_alg == inference_alg,
            r.numerics == numerics,
            r.max_depth == DEFAULT_MAX_DEPTH,
            r.events@.len() == 0,
    {
        Interpreter {
            functions: Vec::new(),
            scope: Vec::new(),
            inference_alg,
            numerics,
            max_depth: DEFAULT_MAX_DEPTH,
            events: Ghost(Seq::empty()),
        }
    }

    /// The model of the function table.
    pub open spec fn table(&self) -> Seq<Def> {
        table_model(self.functions@)
    }

    /// The model of the scope.
    pub open spec fn bindings(&self) -> ScopeModel {
        scope_model(self.scope@)
    }

    /// The events since the interpreter was as `before`.
    pub open spec fn asked_since(&self, before: Self) -> Seq<Event> {
        self.events@.skip(before.events@.len() as int)
    }

    /// Whether the interpreter is `before` after an evaluation: the
    /// function table, the numerics and the depth are the same, the scope is
    /// as it was, the driver has ended no run, and the events are those of
    /// `before` with more behind. The new events lead the driver from where
    /// it was to where it is: its questions are what the driver was asked,
    /// and its computations have answers that the numerics give.
    pub open spec fn evaluated_from(&self, before: Self) -> bool {
        &&& self.functions == before.functions
        &&& self.max_depth == before.max_depth
        &&& self.numerics == before.numerics
        &&& self.inference_alg.finished() == before.inference_alg.finished()
        &&& self.events@ == before.events@ + self.asked_since(before)
        &&& accounted(
            &before.numerics,
            before.scope@,
            self.scope@,
            before.inference_alg,
            self.inference_alg,
            self.asked_since(before),
        )
    }

    /// The value of the variable in the scope.
    pub fn lookup_var(&self, var: &Ident) -> (r: Option<Value>)
        ensures
            match lookup(self.bindings(), var@) {
                Some(v) => r matches Some(x) && x@ == v,
                None => r is None,
            },
    {
        lookup_var(&self.scope, var)
    }

    /// The value of the expression in the scope.
    ///
    /// The scope is left as it was found, whatever comes out. The
    /// evaluation asks the driver at every `sample` and `observe` that it
    /// reaches, and the numerics wherever a builtin operator computes on
    /// floating-point numbers; the questions and their answers are put
    /// behind the events so far, and [`replay`] on them gives what comes
    /// out.
    pub fn eval(&mut self, expr: &Expression) -> (r: Result<Value, RuntimeError>)
        requires
            old(self).inference_alg.wf(),
        ensures
            final(self).inference_alg.wf(),
            final(self).evaluated_from(*old(self)),
            explains(
                replay(
                    old(self).table(),
                    old(self).bindings(),
                    expr@,
                    old(self).max_depth as nat,
                    final(self).asked_since(*old(self)),
                ),
                final(self).asked_since(*old(self)),
                r,
            ),
    {
        let ghost before = self.events@;
        let (r, events) = eval_expr(
            &self.functions,
            &mut self.scope,
            &mut self.inference_alg,
            &self.numerics,
            expr,
            self.max_depth,
        );
        proof {
            self.events@ = before + events@;
            lemma_join(before, events@);
        }
        r
    }

    /// The values of the expressions, evaluated from left to right. See
    /// [`Interpreter::eval`].
    pub fn eval_all(&mut self, args: &Vec<Expression>) -> (r: Result<Vec<Value>, RuntimeError>)
        requires
            old(self).inference_alg.wf(),
        ensures
            final(self).inference_alg.wf(),
            final(self).evaluated_from(*old(self)),
            r matches Ok(vals) ==> vals.len() == args.len(),
            explains_all(
                replay_all(
                    old(self).table(),
                    old(self).bindings(),
                    exprs(args@),
                    args.len() as nat,
                    old(self).max_depth as nat,
                    final(self).asked_since(*old(self)),
                ),
                final(self).asked_since(*old(self)),
                r,
            ),
    {
        let ghost before = self.events@;
        let (r, events) = eval_all(
            &self.functions,
            &mut self.scope,
            &mut self.inference_alg,
            &self.numerics,
            args,
            self.max_depth,
        );
        proof {
            self.events@ = before + events@;
            lemma_join(before, events@);
        }
        r
    }

    /// The function `name` applied to the arguments: the builtin operator
    /// of that name, or else the function that the table defines, whose body
    /// is evaluated in the scope with the parameters bound behind it. See
    /// [`Interpreter::eval`].
    pub fn dispatch_function(&mut self, name: &str, vals: Vec<Value>) -> (r: Result<
        Value,
        RuntimeError,
    >)
        requires
            old(self).inference_alg.wf(),
        ensures
            final(self).inference_alg.wf(),
            final(self).evaluated_from(*old(self)),
            explains(
                replay_dispatch(
                    old(self).table(),
                    old(self).bindings(),
                    name@,
                    views(vals@),
                    old(self).max_depth as nat,
                    final(self).asked_since(*old(self)),
                ),
                final(self).asked_since(*old(self)),
                r,
            ),
            builtin_named(name@) matches Some(builtin) ==> crate::functions::meets(
                &old(self).numerics,
                r,
                builtin_spec(builtin, views(vals@)),
            ),
    {
        let name = String::from_str(name);
        let ghost before = self.events@;
        let (r, events) = dispatch_function(
            &self.functions,
            &mut self.scope,
            &mut self.inference_alg,
            &self.numerics,
            &name,
            vals,
            self.max_depth,
        );
        proof {
            self.events@ = before + events@;
            lemma_join(before, events@);
        }
        r
    }

    /// Runs the program `n_samples` times.
    ///
    /// The address pass numbers the program's `sample` and `observe` nodes,
    /// and the program's definitions are put behind those of the function
    /// table. Then the program's expression is evaluated `n_samples` times
    /// in the scope, and the driver is told of the end of each run, with the
    /// value that came out. The first error ends it all, with the runs
    /// before it recorded in the driver.
    ///
    /// A program with more `sample` and `observe` nodes than the machine can
    /// count is refused before anything changes. Else the questions of all
    /// the runs and the ends of the runs are put behind the events so far:
    /// they lead the driver from where it was to where it is, and
    /// [`replay_runs`] on them gives what comes out. With no run asked for,
    /// nothing can fail, and the driver is not touched. Where all goes well
    /// the driver has ended `n_samples` runs more than before, and after an
    /// error fewer.
    pub fn eval_program(&mut self, program: Program, n_samples: usize) -> (r: Result<
        (),
        RuntimeError,
    >)
        requires
            old(self).inference_alg.wf(),
        ensures
            final(self).inference_alg.wf(),
            final(self).scope@ == old(self).scope@,
            final(self).max_depth == old(self).max_depth,
            final(self).numerics == old(self).numerics,
            final(self).events@ == old(self).events@ + final(self).asked_since(*old(self)),
            leads(
                &old(self).numerics,
                old(self).inference_alg,
                final(self).asked_since(*old(self)),
                final(self).inference_alg,
            ),
            if program_sites(program@) > usize::MAX {
                &&& fails_with(r, too_many_sites())
                &&& final(self).functions == old(self).functions
                &&& final(self).inference_alg == old(self).inference_alg
                &&& final(self).events@ == old(self).events@
            } else {
                &&& final(self).table() == old(self).table() + numbered_program(
                    program@,
                ).definitions
                &&& explains_runs(
                    replay_runs(
                        final(self).table(),
                        old(self).bindings(),
                        numbered_program(program@).expression,
                        n_samples as nat,
                        old(self).max_depth as nat,
                        final(self).asked_since(*old(self)),
                    ),
                    final(self).asked_since(*old(self)),
                    r,
                )
                &&& n_samples == 0 ==> r is Ok && final(self).inference_alg == old(
                    self,
                ).inference_alg
                &&& r is Ok ==> counted(
                    old(self).inference_alg.finished(),
                    final(self).inference_alg.finished(),
                    n_samples as nat,
                )
                &&& r is Err ==> exists|ended: nat|
                    ended < n_samples && #[trigger] counted(
                        old(self).inference_alg.finished(),
                        final(self).inference_alg.finished(),
                        ended,
                    )
            },
    {
        let ghost start = self.events@;
        proof {
            lemma_leads_nowhere(&self.numerics, self.inference_alg);
        }
        let numbered = match assign_variable_numbers(&program) {
            Ok(numbered) => numbered,
            Err(e) => {
                proof {
                    assert(self.events@.skip(start.len() as int) =~= Seq::<Event>::empty());
                }
                return Err(e);
            },
        };
        let ghost target = old(self).table() + numbered@.definitions;
        let Program { definitions, expression } = numbered;
        let n = definitions.len();
        let mut rest = definitions;
        let mut reversed: Vec<Definition> = Vec::new();
        while rest.len() > 0
            invariant
                rest.len() + reversed.len() == n,
                n == definitions.len(),
                forall|k: int| 0 <= k < rest.len() ==> rest@[k] == definitions@[k],
                forall|k: int| 0 <= k < reversed.len() ==> reversed@[k] == definitions@[n - 1 - k],
            decreases rest.len(),
        {
            match rest.pop() {
                Some(d) => {
                    reversed.push(d);
                },
                None => {},
            }
        }
        let ghost base = self.functions@;
        let mut i: usize = 0;
        while i < n
            invariant
                i <= n,
                n == definitions.len(),
                reversed.len() == n - i,
                forall|k: int| 0 <= k < reversed.len() ==> reversed@[k] == definitions@[n - 1 - k],
                self.functions@.len() == base.len() + i,
                self.functions@.subrange(0, base.len() as int) == base,
                forall|k: int|
                    0 <= k < i ==> table_model(self.functions@)[base.len() + k]
                        == #[trigger] definitions@[k]@,
                self.scope == old(self).scope,
                self.inference_alg == old(self).inference_alg,
                self.max_depth == old(self).max_depth,
                self.numerics == old(self).numerics,
                self.events@ == start,
            decreases n - i,
        {
            let ghost before = self.functions@;
            match reversed.pop() {
                Some(d) => {
                    let Definition { ident, params, body } = d;
                    self.functions.push((ident, Function { parameters: params, body }));
                },
                None => {},
            }
            i += 1;
        }
        let ghost fns = table_model(self.functions@);
        let ghost sm = scope_model(self.scope@);
        let ghost body = expression@;
        let ghost depth = self.max_depth as nat;
        let ghost mut asked = Seq::<Event>::empty();
        let ghost mut values = Seq::<Val>::empty();
        let mut run: usize = 0;
        while run < n_samples
            invariant
                run <= n_samples,
                self.inference_alg.wf(),
                self.scope@ == old(self).scope@,
                self.max_depth == old(self).max_depth,
                self.numerics == old(self).numerics,
                start == old(self).events@,
                self.events@ == start,
                fns == table_model(self.functions@),
                fns == target,
                sm == scope_model(old(self).scope@),
                body == expression@,
                body == numbered_program(program@).expression,
                program_sites(program@) <= usize::MAX,
                fns == old(self).table() + numbered_program(program@).definitions,
                depth == old(self).max_depth,
                leads(&self.numerics, old(self).inference_alg, asked, self.inference_alg),
                replay_runs(fns, sm, body, run as nat, depth, asked) == crate::semantics::done(
                    values,
                    asked.len(),
                ),
                n_samples == 0 ==> self.inference_alg == old(self).inference_alg,
                counted(old(self).inference_alg.finished(), self.inference_alg.finished(), run as nat),
            decreases n_samples - run,
        {
            let ghost before = self.inference_alg;
            let (val, events) = eval_expr(
                &self.functions,
                &mut self.scope,
                &mut self.inference_alg,
                &self.numerics,
                &expression,
                self.max_depth,
            );
            let ghost ev = events@;
            let ghost mid = self.inference_alg;
            proof {
                lemma_leads_on(&self.numerics, old(self).inference_alg, asked, before, ev, mid);
            }
            let val = match val {
                Ok(val) => val,
                Err(e) => {
                    proof {
                        lemma_runs_last(
                            fns,
                            sm,
                            body,
                            run as nat,
                            n_samples as nat,
                            depth,
                            asked,
                            values,
                            ev,
                            replay(fns, sm, body, depth, ev).outcome->Failed_0,
                        );
                        self.events@ = start + (asked + ev);
                        lemma_join(start, asked + ev);
                        assert(counted(
                            old(self).inference_alg.finished(),
                            self.inference_alg.finished(),
                            run as nat,
                        ));
                    }
                    return Err(e);
                },
            };
            let ghost value = val@;
            self.inference_alg.finish_one_evaluation(&self.numerics, val);
            proof {
                let end = Event::End { value };
                assert((asked + ev).push(end) =~= (asked + ev) + seq![end]);
                lemma_leads_one(&self.numerics, mid, end, self.inference_alg);
                lemma_leads_on(
                    &self.numerics,
                    old(self).inference_alg,
                    asked + ev,
                    mid,
                    seq![end],
                    self.inference_alg,
                );
                lemma_runs_one_more(fns, sm, body, run as nat, depth, asked, values, ev, value);
                asked = (asked + ev).push(end);
                values = values.push(value);
            }
            run += 1;
        }
        proof {
            self.events@ = start + asked;
            lemma_join(start, asked);
        }
        Ok(())
    }
}

} // verus!
