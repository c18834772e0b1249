//! The builtin operators: arithmetic, comparisons, containers, matrices,
//! scalar functions and distribution constructors.
//!
//! Each operator has a spec function that says, for every argument list,
//! which value or which error comes out. Where the numerics compute the
//! result, the spec function names the computation, and the contract says
//! that the result is one that the numerics give for it.
use vstd::prelude::*;
use crate::distributions::{divides, negates, subtracts, widens_to, Numerics};
use crate::functions::arithmetic::{
    addition, addition_spec, division, division_spec, multiplication, multiplication_spec,
    multiplies_to, subtraction_or_negation, subtraction_spec, sums_to,
};
use crate::functions::comparisons::{comparison, comparison_spec, compares, ComparisonType};
use crate::functions::constructors::{discrete, discrete_spec, normal, normal_spec};
use crate::functions::containers::{
    append, append_spec, element, element_spec, get, get_spec, rest, rest_spec, vector, vector_spec,
    Place,
};
use crate::functions::matrices::{
    add_spec, is_matrix_product, is_matrix_sum, is_matrix_tanh, matrix_addition, matrix_multiply,
    matrix_repeat, matrix_tanh, matrix_transpose, multiply_spec, repeat_spec, tanh_spec,
    transpose_spec,
};
use crate::functions::scalars::{applies, scalar, scalar_spec, ScalarFunction};
use crate::types::{fails_with, views, Float, Number, RuntimeError, Val, Value};

verus! {

/// A result that the numerics compute, by the computation that gives it.
pub enum Computation {
    /// The sum of the numbers, added from left to right to zero.
    Sum(Seq<Number>),
    /// The product of the numbers, multiplied from left to right to one.
    Product(Seq<Number>),
    /// The negation of the number.
    Negation(Float),
    /// The first number less the second.
    Difference(Number, Number),
    /// The first number divided by the second.
    Quotient(Number, Number),
    /// The comparison of the first number with the second.
    Comparison(ComparisonType, Number, Number),
    /// The function of the number.
    Scalar(ScalarFunction, Number),
    /// The product of the two matrices.
    MatMul(Val, Val),
    /// The sum of the two matrices.
    MatAdd(Val, Val),
    /// The matrix of the hyperbolic tangents of the matrix's numbers.
    MatTanh(Val),
}

/// What an operator answers on arguments that it accepts.
pub enum Answer {
    /// This value.
    Exactly(Val),
    /// The value of this computation, which the numerics carry out.
    Computed(Computation),
}

/// Whether `v` is a value that the computation gives under the numerics.
pub open spec fn computes<N: Numerics>(numerics: &N, c: Computation, v: Val) -> bool {
    match c {
        Computation::Sum(xs) => v matches Val::Float(r) && sums_to(numerics, xs, r),
        Computation::Product(xs) => v matches Val::Float(r) && multiplies_to(numerics, xs, r),
        Computation::Negation(a) => v matches Val::Float(r) && negates(numerics, a, r),
        Computation::Difference(x, y) => v matches Val::Float(r) && exists|a: Float, b: Float|
            #![trigger widens_to(numerics, x, a), widens_to(numerics, y, b)]
            widens_to(numerics, x, a) && widens_to(numerics, y, b) && subtracts(numerics, a, b, r),
        Computation::Quotient(x, y) => v matches Val::Float(r) && exists|a: Float, b: Float|
            #![trigger widens_to(numerics, x, a), widens_to(numerics, y, b)]
            widens_to(numerics, x, a) && widens_to(numerics, y, b) && divides(numerics, a, b, r),
        Computation::Comparison(comparison_type, x, y) => v matches Val::Boolean(t) && exists|
            a: Float,
            b: Float,
        |
            #![trigger widens_to(numerics, x, a), widens_to(numerics, y, b)]
            widens_to(numerics, x, a) && widens_to(numerics, y, b) && compares(
                numerics,
                comparison_type,
                a,
                b,
                t,
            ),
        Computation::Scalar(function, x) => v matches Val::Float(r) && exists|a: Float|
            #![trigger widens_to(numerics, x, a)]
            widens_to(numerics, x, a) && applies(numerics, function, a, r),
        Computation::MatMul(a, b) => is_matrix_product(numerics, a, b, v),
        Computation::MatAdd(a, b) => is_matrix_sum(numerics, a, b, v),
        Computation::MatTanh(a) => is_matrix_tanh(numerics, a, v),
    }
}

/// Whether `r` is what `expected` asks for, where the numerics have no
/// part: the very value, or an error with the message.
pub open spec fn exactly(r: Result<Value, RuntimeError>, expected: Result<Answer, Seq<char>>) -> bool {
    match expected {
        Ok(Answer::Exactly(v)) => r matches Ok(x) && x@ == v,
        Ok(Answer::Computed(_)) => false,
        Err(message) => fails_with(r, message),
    }
}

/// Whether `r` is what `expected` asks for: the very value, a value that
/// the computation gives under the numerics, or an error with the message.
pub open spec fn meets<N: Numerics>(
    numerics: &N,
    r: Result<Value, RuntimeError>,
    expected: Result<Answer, Seq<char>>,
) -> bool {
    match expected {
        Ok(Answer::Computed(c)) => r matches Ok(x) && computes(numerics, c, x@),
        _ => exactly(r, expected),
    }
}

/// The builtin operators.
#[derive(Clone, Copy, Debug, PartialEq, Eq, Structural)]
pub enum Builtin {
    Add,
    Multiply,
    Subtract,
    Divide,
    Compare(ComparisonType),
    Vector,
    Get,
    Element(Place),
    Rest,
    Append,
    MatTranspose,
    MatRepmat,
    MatMul,
    MatAdd,
    MatTanh,
    Scalar(ScalarFunction),
    Discrete,
    Normal,
}

/// The builtin operator of the given name, if it names one.
pub open spec fn builtin_named(name: Seq<char>) -> Option<Builtin> {
    if name == "+"@ {
        Some(Builtin::Add)
    } else if name == "*"@ {
        Some(Builtin::Multiply)
    } else if name == "-"@ {
        Some(Builtin::Subtract)
    } else if name == "/"@ {
        Some(Builtin::Divide)
    } else if name == "<"@ {
        Some(Builtin::Compare(ComparisonType::Less))
    } else if name == "<="@ {
        Some(Builtin::Compare(ComparisonType::LessEqual))
    } else if name == "<>"@ {
        Some(Builtin::Compare(ComparisonType::NotEqual))
    } else if name == "="@ {
        Some(Builtin::Compare(ComparisonType::Equal))
    } else if name == ">="@ {
        Some(Builtin::Compare(ComparisonType::GreaterEqual))
    } else if name == ">"@ {
        Some(Builtin::Compare(ComparisonType::Greater))
    } else if name == "vector"@ {
        Some(Builtin::Vector)
    } else if name == "get"@ {
        Some(Builtin::Get)
    } else if name == "first"@ {
        Some(Builtin::Element(Place::First))
    } else if name == "second"@ {
        Some(Builtin::Element(Place::Second))
    } else if name == "last"@ {
        Some(Builtin::Element(Place::Last))
    } else if name == "rest"@ {
        Some(Builtin::Rest)
    } else if name == "append"@ {
        Some(Builtin::Append)
    } else if name == "mat-transpose"@ {
        Some(Builtin::MatTranspose)
    } else if name == "mat-repmat"@ {
        Some(Builtin::MatRepmat)
    } else if name == "mat-mul"@ {
        Some(Builtin::MatMul)
    } else if name == "mat-add"@ {
        Some(Builtin::MatAdd)
    } else if name == "mat-tanh"@ {
        Some(Builtin::MatTanh)
    } else if name == "log"@ {
        Some(Builtin::Scalar(ScalarFunction::Log))
    } else if name == "exp"@ {
        Some(Builtin::Scalar(ScalarFunction::Exp))
    } else if name == "sqrt"@ {
        Some(Builtin::Scalar(ScalarFunction::Sqrt))
    } else if name == "discrete"@ {
        Some(Builtin::Discrete)
    } else if name == "normal"@ {
        Some(Builtin::Normal)
    } else {
        None
    }
}

/// Whether the name is the given text: whether the two have the same bytes,
/// which they have exactly if they have the same characters.
fn is_text(name: &String, text: &str) -> (r: bool)
    ensures
        r == (name@ == text@),
{
    let a = name.as_str().as_bytes();
    let b = text.as_bytes();
    proof {
        vstd::utf8::encode_utf8_decode_utf8(name@);
        vstd::utf8::encode_utf8_decode_utf8(text@);
    }
    if a.len() != b.len() {
        return false;
    }
    let mut i: usize = 0;
    while i < a.len()
        invariant
            i <= a.len(),
            a.len() == b.len(),
            a@ == vstd::utf8::encode_utf8(name@),
            b@ == vstd::utf8::encode_utf8(text@),
            vstd::utf8::decode_utf8(vstd::utf8::encode_utf8(name@)) == name@,
            vstd::utf8::decode_utf8(vstd::utf8::encode_utf8(text@)) == text@,
            forall|k: int| 0 <= k < i ==> a@[k] == b@[k],
        decreases a.len() - i,
    {
        if a[i] != b[i] {
            return false;
        }
        i += 1;
    }
    assert(a@ =~= b@);
    true
}

/// The builtin operator that the name names, if it names one.
pub fn find_builtin(name: &String) -> (r: Option<Builtin>)
    ensures
        r == builtin_named(name@),
{
    if is_text(name, "+") {
        Some(Builtin::Add)
    } else if is_text(name, "*") {
        Some(Builtin::Multiply)
    } else if is_text(name, "-") {
        Some(Builtin::Subtract)
    } else if is_text(name, "/") {
        Some(Builtin::Divide)
    } else if is_text(name, "<") {
        Some(Builtin::Compare(ComparisonType::Less))
    } else if is_text(name, "<=") {
        Some(Builtin::Compare(ComparisonType::LessEqual))
    } else if is_text(name, "<>") {
        Some(Builtin::Compare(ComparisonType::NotEqual))
    } else if is_text(name, "=") {
        Some(Builtin::Compare(ComparisonType::Equal))
    } else if is_text(name, ">=") {
        Some(Builtin::Compare(ComparisonType::GreaterEqual))
    } else if is_text(name, ">") {
        Some(Builtin::Compare(ComparisonType::Greater))
    } else if is_text(name, "vector") {
        Some(Builtin::Vector)
    } else if is_text(name, "get") {
        Some(Builtin::Get)
    } else if is_text(name, "first") {
        Some(Builtin::Element(Place::First))
    } else if is_text(name, "second") {
        Some(Builtin::Element(Place::Second))
    } else if is_text(name, "last") {
        Some(Builtin::Element(Place::Last))
    } else if is_text(name, "rest") {
        Some(Builtin::Rest)
    } else if is_text(name, "append") {
        Some(Builtin::Append)
    } else if is_text(name, "mat-transpose") {
        Some(Builtin::MatTranspose)
    } else if is_text(name, "mat-repmat") {
        Some(Builtin::MatRepmat)
    } else if is_text(name, "mat-mul") {
        Some(Builtin::MatMul)
    } else if is_text(name, "mat-add") {
        Some(Builtin::MatAdd)
    } else if is_text(name, "mat-tanh") {
        Some(Builtin::MatTanh)
    } else if is_text(name, "log") {
        Some(Builtin::Scalar(ScalarFunction::Log))
    } else if is_text(name, "exp") {
        Some(Builtin::Scalar(ScalarFunction::Exp))
    } else if is_text(name, "sqrt") {
        Some(Builtin::Scalar(ScalarFunction::Sqrt))
    } else if is_text(name, "discrete") {
        Some(Builtin::Discrete)
    } else if is_text(name, "normal") {
        Some(Builtin::Normal)
    } else {
        None
    }
}

/// What the builtin operator answers on the arguments.
pub open spec fn builtin_spec(builtin: Builtin, args: Seq<Val>) -> Result<Answer, Seq<char>> {
    match builtin {
        Builtin::Add => addition_spec(args),
        Builtin::Multiply => multiplication_spec(args),
        Builtin::Subtract => subtraction_spec(args),
        Builtin::Divide => division_spec(args),
        Builtin::Compare(comparison_type) => comparison_spec(comparison_type, args),
        Builtin::Vector => vector_spec(args),
        Builtin::Get => get_spec(args),
        Builtin::Element(place) => element_spec(place.spec_name(), place, args),
        Builtin::Rest => rest_spec(args),
        Builtin::Append => append_spec(args),
        Builtin::MatTranspose => transpose_spec(args),
        Builtin::MatRepmat => repeat_spec(args),
        Builtin::MatMul => multiply_spec(args),
        Builtin::MatAdd => add_spec(args),
        Builtin::MatTanh => tanh_spec(args),
        Builtin::Scalar(function) => scalar_spec(function, args),
        Builtin::Discrete => discrete_spec(args),
        Builtin::Normal => normal_spec(args),
    }
}

/// The builtin operator applied to the arguments.
pub fn apply_builtin<N: Numerics>(numerics: &N, builtin: Builtin, vals: Vec<Value>) -> (r: Result<
    Value,
    RuntimeError,
>)
    ensures
        meets(numerics, r, builtin_spec(builtin, views(vals@))),
{
    match builtin {
        Builtin::Add => addition(numerics, vals),
        Builtin::Multiply => multiplication(numerics, vals),
        Builtin::Subtract => subtraction_or_negation(numerics, vals),
        Builtin::Divide => division(numerics, vals),
        Builtin::Compare(comparison_type) => comparison(numerics, comparison_type, vals),
        Builtin::Vector => vector(vals),
        Builtin::Get => get(vals),
        Builtin::Element(place) => element(place, vals),
        Builtin::Rest => rest(vals),
        Builtin::Append => append(vals),
        Builtin::MatTranspose => matrix_transpose(vals),
        Builtin::MatRepmat => matrix_repeat(vals),
        Builtin::MatMul => matrix_multiply(numerics, vals),
        Builtin::MatAdd => matrix_addition(numerics, vals),
        Builtin::MatTanh => matrix_tanh(numerics, vals),
        Builtin::Scalar(function) => scalar(numerics, function, vals),
        Builtin::Discrete => discrete(vals),
        Builtin::Normal => normal(vals),
    }
}

} // verus!

pub mod arithmetic;
pub mod comparisons;
pub mod constructors;
pub mod containers;
pub mod matrices;
pub mod numbers;
pub mod scalars;
