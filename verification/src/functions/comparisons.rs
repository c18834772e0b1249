//! The six comparisons of numbers.
use vstd::prelude::*;
use crate::distributions::{is_equal, is_less, is_less_eq, widen, Numerics};
use crate::functions::numbers::number_of;
use crate::functions::{meets, Answer, Computation};
use crate::types::{fail, views, Float, RuntimeError, Val, Value};

verus! {

/// The six comparisons.
#[derive(Clone, Copy, Debug, PartialEq, Eq, Structural)]
pub enum ComparisonType {
    Less,
    LessEqual,
    Equal,
    GreaterEqual,
    Greater,
    NotEqual,
}

/// The comparison of two integers.
pub open spec fn compare_integers(comparison_type: ComparisonType, a: int, b: int) -> bool {
    match comparison_type {
        ComparisonType::Less => a < b,
        ComparisonType::LessEqual => a <= b,
        ComparisonType::Greater => a > b,
        ComparisonType::GreaterEqual => a >= b,
        ComparisonType::Equal => a == b,
        ComparisonType::NotEqual => a != b,
    }
}

/// Whether `t` is the comparison of `a` with `b` under the numerics.
/// `>` and `>=` are `<` and `<=` with the sides exchanged, and `<>` is the
/// opposite of `=`.
pub open spec fn compares<N: Numerics>(
    numerics: &N,
    comparison_type: ComparisonType,
    a: Float,
    b: Float,
    t: bool,
) -> bool {
    match comparison_type {
        ComparisonType::Less => is_less(numerics, a, b, t),
        ComparisonType::LessEqual => is_less_eq(numerics, a, b, t),
        ComparisonType::Greater => is_less(numerics, b, a, t),
        ComparisonType::GreaterEqual => is_less_eq(numerics, b, a, t),
        ComparisonType::Equal => is_equal(numerics, a, b, t),
        ComparisonType::NotEqual => is_equal(numerics, a, b, !t),
    }
}

/// A comparison: two numbers. Two integers are compared as integers; with a
/// floating-point number among them both are compared as floating-point
/// numbers. Anything else has no comparison.
pub open spec fn comparison_spec(comparison_type: ComparisonType, args: Seq<Val>) -> Result<
    Answer,
    Seq<char>,
> {
    if args.len() != 2 {
        Err("Comparison must have exactly two arguments."@)
    } else {
        match (args[0], args[1]) {
            (Val::Integer(a), Val::Integer(b)) => Ok(
                Answer::Exactly(Val::Boolean(compare_integers(comparison_type, a, b))),
            ),
            (x, y) => if x.is_numeric() && y.is_numeric() {
                Ok(Answer::Computed(Computation::Comparison(comparison_type, x.number(), y.number())))
            } else {
                Err("Comparison is only implemented for numbers."@)
            },
        }
    }
}

/// A comparison.
pub fn comparison<N: Numerics>(
    numerics: &N,
    comparison_type: ComparisonType,
    vals: Vec<Value>,
) -> (r: Result<Value, RuntimeError>)
    ensures
        meets(numerics, r, comparison_spec(comparison_type, views(vals@))),
{
    if vals.len() != 2 {
        return fail("Comparison must have exactly two arguments.");
    }
    match (&vals[0], &vals[1]) {
        (Value::Integer(a), Value::Integer(b)) => {
            let (a, b) = (*a, *b);
            Ok(
                Value::Boolean(
                    match comparison_type {
                        ComparisonType::Less => a < b,
                        ComparisonType::LessEqual => a <= b,
                        ComparisonType::Greater => a > b,
                        ComparisonType::GreaterEqual => a >= b,
                        ComparisonType::Equal => a == b,
                        ComparisonType::NotEqual => a != b,
                    },
                ),
            )
        },
        (Value::Integer(_), Value::Float(_))
        | (Value::Float(_), Value::Integer(_))
        | (Value::Float(_), Value::Float(_)) => {
            let a = widen(numerics, number_of(&vals[0]));
            let b = widen(numerics, number_of(&vals[1]));
            Ok(
                Value::Boolean(
                    match comparison_type {
                        ComparisonType::Less => numerics.less(a, b),
                        ComparisonType::LessEqual => numerics.less_eq(a, b),
                        ComparisonType::Greater => numerics.less(b, a),
                        ComparisonType::GreaterEqual => numerics.less_eq(b, a),
                        ComparisonType::Equal => numerics.equal(a, b),
                        ComparisonType::NotEqual => !numerics.equal(a, b),
                    },
                ),
            )
        },
        _ => fail("Comparison is only implemented for numbers."),
    }
}

} // verus!
