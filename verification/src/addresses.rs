//! The address pass: every `sample` and every `observe` of a program gets a
//! number of its own, in the order in which a walk from the root meets them.
use vstd::prelude::*;
use crate::ast::{
    binding_inits, binding_names, defs, exprs, lemma_expression_view, Def, Definition, Expr,
    Expression, ForEach, Ident, Let, Loop, Prog, Program,
};
use crate::types::{fail, fails_with, RuntimeError};

verus! {

/// The number of `sample` and `observe` nodes of the expression.
pub open spec fn sites(e: Expr) -> nat
    decreases e, 0nat,
{
    match e {
        Expr::Sample(c, _) => 1 + sites(*c),
        Expr::Observe(d, v, _) => 1 + sites(*d) + sites(*v),
        Expr::Let { names, inits, body } => sites_upto(inits, inits.len()) + sites_upto(
            body,
            body.len(),
        ),
        Expr::If(c, t, f) => sites(*c) + sites(*t) + sites(*f),
        Expr::Apply(_, args) => sites_upto(args, args.len()),
        Expr::Vector(items) => sites_upto(items, items.len()),
        Expr::ForEach { n_iters, names, inits, body } => sites_upto(inits, inits.len())
            + sites_upto(body, body.len()),
        Expr::Loop { n_iters, accumulator, fn_name, params } => sites(*accumulator) + sites_upto(
            params,
            params.len(),
        ),
        _ => 0,
    }
}

/// The number of `sample` and `observe` nodes of the first `n` expressions.
pub open spec fn sites_upto(es: Seq<Expr>, n: nat) -> nat
    decreases es, n,
{
    if n == 0 || n > es.len() {
        0
    } else {
        sites_upto(es, (n - 1) as nat) + sites(es[n - 1])
    }
}

/// The expression with its `sample` and `observe` nodes numbered from
/// `start` on: a node before its children, the children from left to right.
/// Nothing else changes, and the addresses that the expression came with
/// play no part.
pub open spec fn numbered(e: Expr, start: nat) -> Expr
    decreases e,
{
    match e {
        Expr::Sample(c, _) => Expr::Sample(Box::new(numbered(*c, start + 1)), Some(start)),
        Expr::Observe(d, v, _) => Expr::Observe(
            Box::new(numbered(*d, start + 1)),
            Box::new(numbered(*v, start + 1 + sites(*d))),
            Some(start),
        ),
        Expr::Let { names, inits, body } => Expr::Let {
            names,
            inits: numbered_all(inits, start),
            body: numbered_all(body, start + sites_upto(inits, inits.len())),
        },
        Expr::If(c, t, f) => Expr::If(
            Box::new(numbered(*c, start)),
            Box::new(numbered(*t, start + sites(*c))),
            Box::new(numbered(*f, start + sites(*c) + sites(*t))),
        ),
        Expr::Apply(name, args) => Expr::Apply(name, numbered_all(args, start)),
        Expr::Vector(items) => Expr::Vector(numbered_all(items, start)),
        Expr::ForEach { n_iters, names, inits, body } => Expr::ForEach {
            n_iters,
            names,
            inits: numbered_all(inits, start),
            body: numbered_all(body, start + sites_upto(inits, inits.len())),
        },
        Expr::Loop { n_iters, accumulator, fn_name, params } => Expr::Loop {
            n_iters,
            accumulator: Box::new(numbered(*accumulator, start)),
            fn_name,
            params: numbered_all(params, start + sites(*accumulator)),
        },
        other => other,
    }
}

/// The expressions numbered from `start` on, one after the other.
pub open spec fn numbered_all(es: Seq<Expr>, start: nat) -> Seq<Expr>
    decreases es,
{
    Seq::new(
        es.len(),
        |i: int|
            if 0 <= i < es.len() {
                numbered(es[i], start + sites_upto(es, i as nat))
            } else {
                Expr::Null
            },
    )
}

/// The number of `sample` and `observe` nodes in the bodies of the first
/// `n` definitions.
pub open spec fn body_sites_upto(ds: Seq<Def>, n: nat) -> nat
    decreases n,
{
    if n == 0 || n > ds.len() {
        0
    } else {
        body_sites_upto(ds, (n - 1) as nat) + sites(ds[n - 1].body)
    }
}

/// The number of `sample` and `observe` nodes of the program.
pub open spec fn program_sites(p: Prog) -> nat {
    sites(p.expression) + body_sites_upto(p.definitions, p.definitions.len())
}

/// The program with its `sample` and `observe` nodes numbered from zero on:
/// first those of its expression, then those of each definition's body, in
/// the order of the definitions.
pub open spec fn numbered_program(p: Prog) -> Prog {
    Prog {
        expression: numbered(p.expression, 0),
        definitions: Seq::new(
            p.definitions.len(),
            |i: int|
                Def {
                    name: p.definitions[i].name,
                    params: p.definitions[i].params,
                    body: numbered(
                        p.definitions[i].body,
                        sites(p.expression) + body_sites_upto(p.definitions, i as nat),
                    ),
                },
        ),
    }
}

/// Numbering changes no count: the numbered expression has as many `sample`
/// and `observe` nodes as the expression.
pub proof fn lemma_numbered_sites(e: Expr, start: nat)
    ensures
        sites(numbered(e, start)) == sites(e),
    decreases e, 0nat,
{
    match e {
        Expr::Sample(c, _) => {
            lemma_numbered_sites(*c, start + 1);
        },
        Expr::Observe(d, v, _) => {
            lemma_numbered_sites(*d, start + 1);
            lemma_numbered_sites(*v, start + 1 + sites(*d));
        },
        Expr::Let { names, inits, body } => {
            lemma_numbered_sites_upto(inits, start, inits.len());
            lemma_numbered_sites_upto(body, start + sites_upto(inits, inits.len()), body.len());
        },
        Expr::If(c, t, f) => {
            lemma_numbered_sites(*c, start);
            lemma_numbered_sites(*t, start + sites(*c));
            lemma_numbered_sites(*f, start + sites(*c) + sites(*t));
        },
        Expr::Apply(_, args) => {
            lemma_numbered_sites_upto(args, start, args.len());
        },
        Expr::Vector(items) => {
            lemma_numbered_sites_upto(items, start, items.len());
        },
        Expr::ForEach { n_iters, names, inits, body } => {
            lemma_numbered_sites_upto(inits, start, inits.len());
            lemma_numbered_sites_upto(body, start + sites_upto(inits, inits.len()), body.len());
        },
        Expr::Loop { n_iters, accumulator, fn_name, params } => {
            lemma_numbered_sites(*accumulator, start);
            lemma_numbered_sites_upto(params, start + sites(*accumulator), params.len());
        },
        _ => {},
    }
}

/// Numbering changes no count in a sequence either.
pub proof fn lemma_numbered_sites_upto(es: Seq<Expr>, start: nat, n: nat)
    requires
        n <= es.len(),
    ensures
        sites_upto(numbered_all(es, start), n) == sites_upto(es, n),
    decreases es, n,
{
    if n > 0 {
        lemma_numbered_sites_upto(es, start, (n - 1) as nat);
        lemma_numbered_sites(es[n - 1], start + sites_upto(es, (n - 1) as nat));
    }
}

/// The address pass is idempotent: a numbered expression, numbered again
/// from the same start, is unchanged.
pub proof fn lemma_numbered_idempotent(e: Expr, start: nat)
    ensures
        numbered(numbered(e, start), start) == numbered(e, start),
    decreases e, 0nat,
{
    match e {
        Expr::Sample(c, _) => {
            lemma_numbered_idempotent(*c, start + 1);
        },
        Expr::Observe(d, v, _) => {
            lemma_numbered_idempotent(*d, start + 1);
            lemma_numbered_sites(*d, start + 1);
            lemma_numbered_idempotent(*v, start + 1 + sites(*d));
        },
        Expr::Let { names, inits, body } => {
            lemma_numbered_all_idempotent(inits, start);
            lemma_numbered_sites_upto(inits, start, inits.len());
            lemma_numbered_all_idempotent(body, start + sites_upto(inits, inits.len()));
        },
        Expr::If(c, t, f) => {
            lemma_numbered_idempotent(*c, start);
            lemma_numbered_sites(*c, start);
            lemma_numbered_idempotent(*t, start + sites(*c));
            lemma_numbered_sites(*t, start + sites(*c));
            lemma_numbered_idempotent(*f, start + sites(*c) + sites(*t));
        },
        Expr::Apply(_, args) => {
            lemma_numbered_all_idempotent(args, start);
        },
        Expr::Vector(items) => {
            lemma_numbered_all_idempotent(items, start);
        },
        Expr::ForEach { n_iters, names, inits, body } => {
            lemma_numbered_all_idempotent(inits, start);
            lemma_numbered_sites_upto(inits, start, inits.len());
            lemma_numbered_all_idempotent(body, start + sites_upto(inits, inits.len()));
        },
        Expr::Loop { n_iters, accumulator, fn_name, params } => {
            lemma_numbered_idempotent(*accumulator, start);
            lemma_numbered_sites(*accumulator, start);
            lemma_numbered_all_idempotent(params, start + sites(*accumulator));
        },
        _ => {},
    }
}

/// A numbered sequence, numbered again from the same start, is unchanged.
pub proof fn lemma_numbered_all_idempotent(es: Seq<Expr>, start: nat)
    ensures
        numbered_all(numbered_all(es, start), start) == numbered_all(es, start),
    decreases es, 1nat,
{
    let once = numbered_all(es, start);
    let twice = numbered_all(once, start);
    assert forall|i: int| 0 <= i < es.len() implies twice[i] == once[i] by {
        lemma_numbered_sites_upto(es, start, i as nat);
        lemma_numbered_idempotent(es[i], start + sites_upto(es, i as nat));
    }
}

/// Numbering changes no count in the bodies of definitions.
pub proof fn lemma_numbered_body_sites(p: Prog, n: nat)
    requires
        n <= p.definitions.len(),
    ensures
        body_sites_upto(numbered_program(p).definitions, n) == body_sites_upto(p.definitions, n),
    decreases n,
{
    if n > 0 {
        lemma_numbered_body_sites(p, (n - 1) as nat);
        lemma_numbered_sites(
            p.definitions[n - 1].body,
            sites(p.expression) + body_sites_upto(p.definitions, (n - 1) as nat),
        );
    }
}

/// The address pass is idempotent: running it twice yields the addresses
/// that running it once yields.
pub proof fn lemma_address_pass_idempotent(p: Prog)
    ensures
        numbered_program(numbered_program(p)) == numbered_program(p),
{
    let once = numbered_program(p);
    let twice = numbered_program(once);
    lemma_numbered_idempotent(p.expression, 0);
    lemma_numbered_sites(p.expression, 0);
    assert forall|i: int| 0 <= i < p.definitions.len() implies twice.definitions[i]
        == once.definitions[i] by {
        let at = sites(p.expression) + body_sites_upto(p.definitions, i as nat);
        lemma_numbered_body_sites(p, i as nat);
        lemma_numbered_idempotent(p.definitions[i].body, at);
    }
    assert(twice.definitions =~= once.definitions);
}

/// The addresses of the `sample` and `observe` nodes of the expression, in
/// the order in which a walk from the root meets them.
pub open spec fn addresses(e: Expr) -> Seq<Option<nat>>
    decreases e, 0nat,
{
    match e {
        Expr::Sample(c, a) => seq![a] + addresses(*c),
        Expr::Observe(d, v, a) => seq![a] + addresses(*d) + addresses(*v),
        Expr::Let { names, inits, body } => addresses_upto(inits, inits.len()) + addresses_upto(
            body,
            body.len(),
        ),
        Expr::If(c, t, f) => addresses(*c) + addresses(*t) + addresses(*f),
        Expr::Apply(_, args) => addresses_upto(args, args.len()),
        Expr::Vector(items) => addresses_upto(items, items.len()),
        Expr::ForEach { n_iters, names, inits, body } => addresses_upto(inits, inits.len())
            + addresses_upto(body, body.len()),
        Expr::Loop { n_iters, accumulator, fn_name, params } => addresses(*accumulator)
            + addresses_upto(params, params.len()),
        _ => Seq::empty(),
    }
}

/// The addresses of the `sample` and `observe` nodes of the first `n`
/// expressions.
pub open spec fn addresses_upto(es: Seq<Expr>, n: nat) -> Seq<Option<nat>>
    decreases es, n,
{
    if n == 0 || n > es.len() {
        Seq::empty()
    } else {
        addresses_upto(es, (n - 1) as nat) + addresses(es[n - 1])
    }
}

/// The `n` addresses from `start` on.
pub open spec fn counting(start: nat, n: nat) -> Seq<Option<nat>> {
    Seq::new(n, |k: int| Some((start + k) as nat))
}

/// The addresses of the `sample` and `observe` nodes in the bodies of the
/// first `n` definitions.
pub open spec fn body_addresses_upto(ds: Seq<Def>, n: nat) -> Seq<Option<nat>>
    decreases n,
{
    if n == 0 || n > ds.len() {
        Seq::empty()
    } else {
        body_addresses_upto(ds, (n - 1) as nat) + addresses(ds[n - 1].body)
    }
}

/// The addresses of the `sample` and `observe` nodes of the program: those
/// of its expression, then those of the bodies of its definitions.
pub open spec fn program_addresses(p: Prog) -> Seq<Option<nat>> {
    addresses(p.expression) + body_addresses_upto(p.definitions, p.definitions.len())
}

/// The walk meets the nodes of a numbered expression in the order of their
/// addresses: they are the numbers from `start` on, one for each node.
pub proof fn lemma_numbered_addresses(e: Expr, start: nat)
    ensures
        addresses(numbered(e, start)) == counting(start, sites(e)),
    decreases e, 0nat,
{
    match e {
        Expr::Sample(c, _) => {
            lemma_numbered_addresses(*c, start + 1);
        },
        Expr::Observe(d, v, _) => {
            lemma_numbered_addresses(*d, start + 1);
            lemma_numbered_addresses(*v, start + 1 + sites(*d));
        },
        Expr::Let { names, inits, body } => {
            lemma_numbered_addresses_upto(inits, start, inits.len());
            lemma_numbered_addresses_upto(body, start + sites_upto(inits, inits.len()), body.len());
        },
        Expr::If(c, t, f) => {
            lemma_numbered_addresses(*c, start);
            lemma_numbered_addresses(*t, start + sites(*c));
            lemma_numbered_addresses(*f, start + sites(*c) + sites(*t));
        },
        Expr::Apply(_, args) => {
            lemma_numbered_addresses_upto(args, start, args.len());
        },
        Expr::Vector(items) => {
            lemma_numbered_addresses_upto(items, start, items.len());
        },
        Expr::ForEach { n_iters, names, inits, body } => {
            lemma_numbered_addresses_upto(inits, start, inits.len());
            lemma_numbered_addresses_upto(body, start + sites_upto(inits, inits.len()), body.len());
        },
        Expr::Loop { n_iters, accumulator, fn_name, params } => {
            lemma_numbered_addresses(*accumulator, start);
            lemma_numbered_addresses_upto(params, start + sites(*accumulator), params.len());
        },
        _ => {},
    }
}

/// The same for a sequence of expressions.
pub proof fn lemma_numbered_addresses_upto(es: Seq<Expr>, start: nat, n: nat)
    requires
        n <= es.len(),
    ensures
        addresses_upto(numbered_all(es, start), n) == counting(start, sites_upto(es, n)),
    decreases es, n,
{
    if n > 0 {
        lemma_numbered_addresses_upto(es, start, (n - 1) as nat);
        lemma_numbered_addresses(es[n - 1], start + sites_upto(es, (n - 1) as nat));
    }
}

/// The same for the bodies of the definitions of a numbered program.
pub proof fn lemma_numbered_body_addresses(p: Prog, n: nat)
    requires
        n <= p.definitions.len(),
    ensures
        body_addresses_upto(numbered_program(p).definitions, n) == counting(
            sites(p.expression),
            body_sites_upto(p.definitions, n),
        ),
    decreases n,
{
    if n > 0 {
        lemma_numbered_body_addresses(p, (n - 1) as nat);
        let at = sites(p.expression) + body_sites_upto(p.definitions, (n - 1) as nat);
        lemma_numbered_addresses(p.definitions[n - 1].body, at);
    }
}

/// After the address pass every `sample` and every `observe` of the program
/// has an address, and no two have the same: the walk meets the addresses
/// zero, one, two and so on.
pub proof fn lemma_addresses_are_distinct(p: Prog)
    ensures
        program_addresses(numbered_program(p)) == counting(0, program_sites(p)),
        forall|i: int, j: int|
            0 <= i < j < program_sites(p) ==> program_addresses(numbered_program(p))[i]
                != program_addresses(numbered_program(p))[j],
        forall|i: int|
            0 <= i < program_sites(p) ==> program_addresses(numbered_program(p))[i] == Some(
                i as nat,
            ),
{
    lemma_numbered_addresses(p.expression, 0);
    lemma_numbered_body_addresses(p, p.definitions.len());
}

/// The message of the error for a program with more `sample` and `observe`
/// nodes than the machine can count.
pub open spec fn too_many_sites() -> Seq<char> {
    "The program has too many random choices to number."@
}

/// A longer prefix has no fewer `sample` and `observe` nodes.
pub proof fn lemma_sites_upto_monotone(es: Seq<Expr>, m: nat, n: nat)
    requires
        m <= n <= es.len(),
    ensures
        sites_upto(es, m) <= sites_upto(es, n),
    decreases n,
{
    if m < n {
        lemma_sites_upto_monotone(es, m, (n - 1) as nat);
    }
}

/// A copy of the name.
fn copy_ident(name: &Ident) -> (r: Ident)
    ensures
        r@ == name@,
{
    Ident(name.0.clone())
}

/// The expression with its `sample` and `observe` nodes numbered from
/// `counter` on, and the next free number.
///
/// Fails only where the numbers would pass what the machine can count.
pub fn traverse_expr(expr: &Expression, counter: usize) -> (r: Result<
    (Expression, usize),
    RuntimeError,
>)
    ensures
        match r {
            Ok(pair) => pair.0@ == numbered(expr@, counter as nat) && pair.1 == counter + sites(
                expr@,
            ),
            Err(_) => counter + sites(expr@) > usize::MAX && fails_with(r, too_many_sites()),
        },
    decreases expr,
{
    proof {
        lemma_expression_view(*expr);
    }
    match expr {
        Expression::Variable(name) => Ok((Expression::Variable(copy_ident(name)), counter)),
        Expression::Boolean(b) => Ok((Expression::Boolean(*b), counter)),
        Expression::Integer(i) => Ok((Expression::Integer(*i), counter)),
        Expression::Float(x) => Ok((Expression::Float(*x), counter)),
        Expression::Null => Ok((Expression::Null, counter)),
        Expression::Sample(child, _) => {
            if counter == usize::MAX {
                return fail("The program has too many random choices to number.");
            }
            let (new_child, next) = traverse_expr(child, counter + 1)?;
            Ok((Expression::Sample(Box::new(new_child), Some(counter)), next))
        },
        Expression::Observe(dist, val, _) => {
            if counter == usize::MAX {
                return fail("The program has too many random choices to number.");
            }
            let (new_dist, after_dist) = traverse_expr(dist, counter + 1)?;
            let (new_val, next) = traverse_expr(val, after_dist)?;
            Ok((Expression::Observe(Box::new(new_dist), Box::new(new_val), Some(counter)), next))
        },
        Expression::If(test, yes, no) => {
            let (new_test, after_test) = traverse_expr(test, counter)?;
            let (new_yes, after_yes) = traverse_expr(yes, after_test)?;
            let (new_no, next) = traverse_expr(no, after_yes)?;
            Ok((Expression::If(Box::new(new_test), Box::new(new_yes), Box::new(new_no)), next))
        },
        Expression::Let(l) => {
            let (bindings, after_bindings) = traverse_bindings(&l.bindings, counter)?;
            let (body, next) = traverse_all(&l.body, after_bindings)?;
            let out = Expression::Let(Let { bindings, body });
            proof {
                lemma_expression_view(out);
            }
            Ok((out, next))
        },
        Expression::FunctionApplication(name, args) => {
            let (new_args, next) = traverse_all(args, counter)?;
            let out = Expression::FunctionApplication(copy_ident(name), new_args);
            proof {
                lemma_expression_view(out);
            }
            Ok((out, next))
        },
        Expression::Vector(items) => {
            let (new_items, next) = traverse_all(items, counter)?;
            let out = Expression::Vector(new_items);
            proof {
                lemma_expression_view(out);
            }
            Ok((out, next))
        },
        Expression::ForEach(f) => {
            let (bindings, after_bindings) = traverse_bindings(&f.bindings, counter)?;
            let (body, next) = traverse_all(&f.body, after_bindings)?;
            let out = Expression::ForEach(ForEach { n_iters: f.n_iters, bindings, body });
            proof {
                lemma_expression_view(out);
            }
            Ok((out, next))
        },
        Expression::Loop(l) => {
            let (accumulator, after_accumulator) = traverse_expr(&l.accumulator, counter)?;
            let (params, next) = traverse_all(&l.params, after_accumulator)?;
            let out = Expression::Loop(
                Loop {
                    n_iters: l.n_iters,
                    accumulator: Box::new(accumulator),
                    fn_name: copy_ident(&l.fn_name),
                    params,
                },
            );
            proof {
                lemma_expression_view(out);
            }
            Ok((out, next))
        },
    }
}

/// The expressions numbered from `counter` on, one after the other, and the
/// next free number.
pub fn traverse_all(items: &Vec<Expression>, counter: usize) -> (r: Result<
    (Vec<Expression>, usize),
    RuntimeError,
>)
    ensures
        match r {
            Ok(pair) => exprs(pair.0@) == numbered_all(exprs(items@), counter as nat) && pair.1
                == counter + sites_upto(exprs(items@), items.len() as nat),
            Err(_) => counter + sites_upto(exprs(items@), items.len() as nat) > usize::MAX
                && fails_with(r, too_many_sites()),
        },
    decreases items,
{
    let ghost es = exprs(items@);
    let mut out: Vec<Expression> = Vec::new();
    let mut next = counter;
    let mut i: usize = 0;
    while i < items.len()
        invariant
            i <= items.len(),
            es == exprs(items@),
            out.len() == i,
            next == counter + sites_upto(es, i as nat),
            forall|k: int|
                0 <= k < i ==> (#[trigger] out@[k])@ == numbered(
                    es[k],
                    counter as nat + sites_upto(es, k as nat),
                ),
        decreases items.len() - i,
    {
        match traverse_expr(&items[i], next) {
            Ok((item, after)) => {
                out.push(item);
                next = after;
            },
            Err(e) => {
                proof {
                    lemma_sites_upto_monotone(es, (i + 1) as nat, items.len() as nat);
                }
                return Err(e);
            },
        }
        i += 1;
    }
    Ok((out, next))
}

/// The bindings with their expressions numbered from `counter` on, one after
/// the other, and the next free number.
pub fn traverse_bindings(bindings: &Vec<(Ident, Expression)>, counter: usize) -> (r: Result<
    (Vec<(Ident, Expression)>, usize),
    RuntimeError,
>)
    ensures
        match r {
            Ok(pair) => {
                &&& binding_names(pair.0@) == binding_names(bindings@)
                &&& binding_inits(pair.0@) == numbered_all(binding_inits(bindings@), counter as nat)
                &&& pair.1 == counter + sites_upto(
                    binding_inits(bindings@),
                    bindings.len() as nat,
                )
            },
            Err(_) => counter + sites_upto(binding_inits(bindings@), bindings.len() as nat)
                > usize::MAX && fails_with(r, too_many_sites()),
        },
    decreases bindings,
{
    let ghost es = binding_inits(bindings@);
    let mut out: Vec<(Ident, Expression)> = Vec::new();
    let mut next = counter;
    let mut i: usize = 0;
    while i < bindings.len()
        invariant
            i <= bindings.len(),
            es == binding_inits(bindings@),
            out.len() == i,
            next == counter + sites_upto(es, i as nat),
            forall|k: int| 0 <= k < i ==> (#[trigger] out@[k]).0@ == bindings@[k].0@,
            forall|k: int|
                0 <= k < i ==> (#[trigger] out@[k]).1@ == numbered(
                    es[k],
                    counter as nat + sites_upto(es, k as nat),
                ),
        decreases bindings.len() - i,
    {
        let binding = &bindings[i];
        match traverse_expr(&binding.1, next) {
            Ok((item, after)) => {
                out.push((copy_ident(&binding.0), item));
                next = after;
            },
            Err(e) => {
                proof {
                    lemma_sites_upto_monotone(es, (i + 1) as nat, bindings.len() as nat);
                }
                return Err(e);
            },
        }
        i += 1;
    }
    Ok((out, next))
}

/// The bodies of more definitions have no fewer `sample` and `observe`
/// nodes.
pub proof fn lemma_body_sites_monotone(ds: Seq<Def>, m: nat, n: nat)
    requires
        m <= n <= ds.len(),
    ensures
        body_sites_upto(ds, m) <= body_sites_upto(ds, n),
    decreases n,
{
    if m < n {
        lemma_body_sites_monotone(ds, m, (n - 1) as nat);
    }
}

/// The address pass: the program with every `sample` and `observe` numbered,
/// from zero on and each with a number of its own.
///
/// Fails only for a program with more such nodes than the machine can
/// count.
pub fn assign_variable_numbers(program: &Program) -> (r: Result<Program, RuntimeError>)
    ensures
        match r {
            Ok(p) => p@ == numbered_program(program@) && program_sites(program@) <= usize::MAX,
            Err(_) => program_sites(program@) > usize::MAX && fails_with(r, too_many_sites()),
        },
{
    let ghost ds = defs(program.definitions@);
    let (expression, after_expression) = match traverse_expr(&program.expression, 0) {
        Ok(pair) => pair,
        Err(e) => {
            return Err(e);
        },
    };
    let mut definitions: Vec<Definition> = Vec::new();
    let mut next = after_expression;
    let mut i: usize = 0;
    while i < program.definitions.len()
        invariant
            i <= program.definitions.len(),
            ds == defs(program.definitions@),
            definitions.len() == i,
            after_expression == sites(program.expression@),
            next == after_expression + body_sites_upto(ds, i as nat),
            forall|k: int|
                0 <= k < i ==> (#[trigger] definitions@[k])@ == numbered_program(
                    program@,
                ).definitions[k],
        decreases program.definitions.len() - i,
    {
        let definition = &program.definitions[i];
        match traverse_expr(&definition.body, next) {
            Ok((body, after)) => {
                let mut params: Vec<Ident> = Vec::new();
                let mut j: usize = 0;
                while j < definition.params.len()
                    invariant
                        j <= definition.params.len(),
                        params.len() == j,
                        forall|k: int| 0 <= k < j ==> (#[trigger] params@[k])@ == definition.params@[k]@,
                    decreases definition.params.len() - j,
                {
                    params.push(copy_ident(&definition.params[j]));
                    j += 1;
                }
                let numbered_definition = Definition {
                    ident: copy_ident(&definition.ident),
                    params,
                    body,
                };
                proof {
                    assert(crate::ast::names(numbered_definition.params@) =~= crate::ast::names(
                        definition.params@,
                    ));
                }
                definitions.push(numbered_definition);
                next = after;
            },
            Err(e) => {
                proof {
                    lemma_body_sites_monotone(ds, (i + 1) as nat, ds.len());
                }
                return Err(e);
            },
        }
        i += 1;
    }
    let out = Program { definitions, expression };
    proof {
        assert(out@.definitions =~= numbered_program(program@).definitions);
    }
    Ok(out)
}

} // verus!
