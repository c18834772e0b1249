//! `log`, `exp` and `sqrt`.
use vstd::prelude::*;
use crate::distributions::{is_exp, is_ln, is_sqrt, widen, Numerics};
use crate::functions::numbers::{assert_all_numeric_type, number_of, numeric_type_spec};
use crate::functions::{meets, Answer, Computation};
use crate::types::{views, Float, RuntimeError, Val, Value};

verus! {

/// The three scalar functions.
#[derive(Clone, Copy, Debug, PartialEq, Eq, Structural)]
pub enum ScalarFunction {
    Log,
    Exp,
    Sqrt,
}

impl ScalarFunction {
    /// The name of the function in programs.
    pub open spec fn spec_name(self) -> Seq<char> {
        match self {
            ScalarFunction::Log => "log"@,
            ScalarFunction::Exp => "exp"@,
            ScalarFunction::Sqrt => "sqrt"@,
        }
    }

    /// The name of the function in programs.
    pub fn name(&self) -> (r: &'static str)
        ensures
            r@ == self.spec_name(),
    {
        match self {
            ScalarFunction::Log => "log",
            ScalarFunction::Exp => "exp",
            ScalarFunction::Sqrt => "sqrt",
        }
    }
}

/// Whether `r` is the function of `a` under the numerics.
pub open spec fn applies<N: Numerics>(numerics: &N, function: ScalarFunction, a: Float, r: Float) -> bool {
    match function {
        ScalarFunction::Log => is_ln(numerics, a, r),
        ScalarFunction::Exp => is_exp(numerics, a, r),
        ScalarFunction::Sqrt => is_sqrt(numerics, a, r),
    }
}

/// `log`, `exp`, `sqrt`: one number; the result is a floating-point number.
pub open spec fn scalar_spec(function: ScalarFunction, args: Seq<Val>) -> Result<Answer, Seq<char>> {
    if args.len() != 1 {
        Err(function.spec_name() + " must have 1 argument."@)
    } else {
        match numeric_type_spec(function.spec_name(), args) {
            Err(message) => Err(message),
            Ok(_) => Ok(Answer::Computed(Computation::Scalar(function, args[0].number()))),
        }
    }
}

/// `log`, `exp` or `sqrt`.
pub fn scalar<N: Numerics>(numerics: &N, function: ScalarFunction, vals: Vec<Value>) -> (r: Result<
    Value,
    RuntimeError,
>)
    ensures
        meets(numerics, r, scalar_spec(function, views(vals@))),
{
    if vals.len() != 1 {
        let mut message = String::from_str(function.name());
        message.append(" must have 1 argument.");
        return Err(RuntimeError::new(message));
    }
    assert_all_numeric_type(function.name(), &vals)?;
    let x = widen(numerics, number_of(&vals[0]));
    Ok(
        Value::Float(
            match function {
                ScalarFunction::Log => numerics.ln(x),
                ScalarFunction::Exp => numerics.exp(x),
                ScalarFunction::Sqrt => numerics.sqrt(x),
            },
        ),
    )
}

/// `log`.
pub fn log<N: Numerics>(numerics: &N, vals: Vec<Value>) -> (r: Result<Value, RuntimeError>)
    ensures
        meets(numerics, r, scalar_spec(ScalarFunction::Log, views(vals@))),
{
    scalar(numerics, ScalarFunction::Log, vals)
}

/// `exp`.
pub fn exp<N: Numerics>(numerics: &N, vals: Vec<Value>) -> (r: Result<Value, RuntimeError>)
    ensures
        meets(numerics, r, scalar_spec(ScalarFunction::Exp, views(vals@))),
{
    scalar(numerics, ScalarFunction::Exp, vals)
}

/// `sqrt`.
pub fn sqrt<N: Numerics>(numerics: &N, vals: Vec<Value>) -> (r: Result<Value, RuntimeError>)
    ensures
        meets(numerics, r, scalar_spec(ScalarFunction::Sqrt, views(vals@))),
{
    scalar(numerics, ScalarFunction::Sqrt, vals)
}

} // verus!
