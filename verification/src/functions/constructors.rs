//! The constructors of distributions: `normal` and `discrete`.
use vstd::prelude::*;
use crate::distributions::{Discrete, Dist, Distribution, Normal};
use crate::functions::numbers::{
    assert_all_numeric_type, first_non_numeric, lemma_first_non_numeric, none_negative, number_of,
    numeric_type_spec,
};
use crate::functions::{exactly, Answer};
use crate::types::{
    all_numeric, fail, lemma_vector_view, numbers, views, Number, RuntimeError, Val, Value,
};

verus! {

/// `normal`: two numbers, the mean and the standard deviation; the normal
/// distribution with these.
pub open spec fn normal_spec(args: Seq<Val>) -> Result<Answer, Seq<char>> {
    if args.len() != 2 {
        Err("Normal expects exactly two arguments."@)
    } else {
        match numeric_type_spec("normal"@, args) {
            Err(message) => Err(message),
            Ok(_) => Ok(
                Answer::Exactly(
                    Val::Distribution(
                        Dist::Normal { mu: args[0].number(), sigma: args[1].number() },
                    ),
                ),
            ),
        }
    }
}

/// `normal`.
pub fn normal(vals: Vec<Value>) -> (r: Result<Value, RuntimeError>)
    ensures
        exactly(r, normal_spec(views(vals@))),
{
    if vals.len() != 2 {
        return fail("Normal expects exactly two arguments.");
    }
    let ghost s = views(vals@);
    assert_all_numeric_type("normal", &vals)?;
    proof {
        lemma_first_non_numeric(s);
    }
    let mu = number_of(&vals[0]);
    let sigma = number_of(&vals[1]);
    Ok(Value::Distribution(Distribution::Normal(Normal { mu, sigma })))
}

/// `discrete`: a vector of numbers, the weights, at least one and none
/// below zero; the distribution over their indices.
pub open spec fn discrete_spec(args: Seq<Val>) -> Result<Answer, Seq<char>> {
    if args.len() != 1 {
        Err("`discrete` expects exactly 1 argument, a vector of numbers."@)
    } else {
        match args[0] {
            Val::Vector(list) => match numeric_type_spec("discrete"@, list) {
                Err(message) => Err(message),
                Ok(_) => if list.len() == 0 {
                    Err("`discrete` expects at least one weight."@)
                } else if !none_negative(crate::types::numbers(list)) {
                    Err("`discrete` expects weights that are not negative."@)
                } else {
                    Ok(
                        Answer::Exactly(
                            Val::Distribution(
                                Dist::Discrete { weights: crate::types::numbers(list) },
                            ),
                        ),
                    )
                },
            },
            _ => Err("`discrete` expects exactly 1 argument, a vector of numbers."@),
        }
    }
}

/// `discrete`.
pub fn discrete(vals: Vec<Value>) -> (r: Result<Value, RuntimeError>)
    ensures
        exactly(r, discrete_spec(views(vals@))),
{
    if vals.len() != 1 {
        return fail("`discrete` expects exactly 1 argument, a vector of numbers.");
    }
    let ghost args = views(vals@);
    let mut items = vals;
    let list = match items.pop() {
        Some(Value::Vector(v)) => {
            proof {
                lemma_vector_view(v);
            }
            v
        },
        _ => {
            return fail("`discrete` expects exactly 1 argument, a vector of numbers.");
        },
    };
    let ghost s = views(list@);
    assert_all_numeric_type("discrete", &list)?;
    proof {
        lemma_first_non_numeric(s);
    }
    if list.len() == 0 {
        return fail("`discrete` expects at least one weight.");
    }
    let mut weights: Vec<Number> = Vec::new();
    let mut i: usize = 0;
    while i < list.len()
        invariant
            i <= list.len(),
            list.len() > 0,
            s == views(list@),
            args == views(vals@),
            args.len() == 1,
            args[0] == Val::Vector(s),
            first_non_numeric(s) is None,
            all_numeric(s),
            weights.len() == i,
            forall|k: int| 0 <= k < i ==> (#[trigger] weights@[k]) == s[k].number(),
            forall|k: int| 0 <= k < i ==> (#[trigger] s[k]).number().is_non_negative(),
        decreases list.len() - i,
    {
        assert(s[i as int] == list@[i as int]@);
        let w = number_of(&list[i]);
        if !w.is_non_negative() {
            assert(!crate::types::numbers(s)[i as int].is_non_negative());
            return fail("`discrete` expects weights that are not negative.");
        }
        weights.push(w);
        i += 1;
    }
    proof {
        assert(weights@ =~= crate::types::numbers(s));
    }
    Ok(Value::Distribution(Distribution::Discrete(Discrete { weights })))
}

} // verus!
