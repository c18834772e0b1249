//! `+`, `*`, `-` and `/`.
use vstd::prelude::*;
use crate::distributions::{adds, multiplies, widen, widens_to, Numerics};
use crate::functions::numbers::{
    all_integers, assert_all_numeric_type, fits, lemma_first_non_numeric, number_of, numeric_kind,
    numeric_type_spec,
};
use crate::functions::{meets, Answer, Computation};
use crate::types::{
    all_numeric, fail, numbers, views, Float, Number, RuntimeError, Val, Value, ValueType,
};

verus! {

/// The sum of the integers, added left to right in `i64`; `None` where a
/// partial sum leaves the range of `i64`.
pub open spec fn checked_sum(s: Seq<Val>) -> Option<int>
    decreases s.len(),
{
    if s.len() == 0 {
        Some(0)
    } else {
        match checked_sum(s.drop_last()) {
            Some(acc) => if fits(acc + s.last()->Integer_0) {
                Some(acc + s.last()->Integer_0)
            } else {
                None
            },
            None => None,
        }
    }
}

/// A partial sum that leaves the range of `i64` makes the whole sum fail.
pub proof fn lemma_sum_overflow(s: Seq<Val>, n: int)
    requires
        0 <= n <= s.len(),
        checked_sum(s.take(n)) is None,
    ensures
        checked_sum(s) is None,
    decreases s.len() - n,
{
    if n < s.len() {
        let p = s.drop_last();
        assert(p.take(n) =~= s.take(n));
        lemma_sum_overflow(p, n);
    } else {
        assert(s.take(n) =~= s);
    }
}

/// The product of the integers, multiplied left to right in `i64`; `None`
/// where a partial product leaves the range of `i64`.
pub open spec fn checked_product(s: Seq<Val>) -> Option<int>
    decreases s.len(),
{
    if s.len() == 0 {
        Some(1)
    } else {
        match checked_product(s.drop_last()) {
            Some(acc) => if fits(acc * s.last()->Integer_0) {
                Some(acc * s.last()->Integer_0)
            } else {
                None
            },
            None => None,
        }
    }
}

/// A partial product that leaves the range of `i64` makes the whole product
/// fail.
pub proof fn lemma_product_overflow(s: Seq<Val>, n: int)
    requires
        0 <= n <= s.len(),
        checked_product(s.take(n)) is None,
    ensures
        checked_product(s) is None,
    decreases s.len() - n,
{
    if n < s.len() {
        let p = s.drop_last();
        assert(p.take(n) =~= s.take(n));
        lemma_product_overflow(p, n);
    } else {
        assert(s.take(n) =~= s);
    }
}

/// Whether `partial` holds the running sums of the numbers under the
/// numerics: zero first, and behind each sum the next, which is the sum
/// before with the next number, widened to `ws`, added.
pub open spec fn is_running_sum<N: Numerics>(
    numerics: &N,
    xs: Seq<Number>,
    ws: Seq<Float>,
    partial: Seq<Float>,
) -> bool {
    &&& ws.len() == xs.len()
    &&& partial.len() == xs.len() + 1
    &&& partial[0] == Float::spec_zero()
    &&& forall|k: int| 0 <= k < xs.len() ==> widens_to(numerics, xs[k], #[trigger] ws[k])
    &&& forall|k: int|
        0 <= k < xs.len() ==> adds(numerics, #[trigger] partial[k], ws[k], partial[k + 1])
}

/// Whether `r` is the sum of the numbers under the numerics: zero, with
/// each number in turn widened and added.
pub open spec fn sums_to<N: Numerics>(numerics: &N, xs: Seq<Number>, r: Float) -> bool {
    exists|ws: Seq<Float>, partial: Seq<Float>|
        #![trigger is_running_sum(numerics, xs, ws, partial)]
        is_running_sum(numerics, xs, ws, partial) && r == partial[xs.len() as int]
}

/// Whether `partial` holds the running products of the numbers under the
/// numerics: one first, and behind each product the next, which is the
/// product before multiplied by the next number, widened to `ws`.
pub open spec fn is_running_product<N: Numerics>(
    numerics: &N,
    xs: Seq<Number>,
    ws: Seq<Float>,
    partial: Seq<Float>,
) -> bool {
    &&& ws.len() == xs.len()
    &&& partial.len() == xs.len() + 1
    &&& partial[0] == Float::spec_one()
    &&& forall|k: int| 0 <= k < xs.len() ==> widens_to(numerics, xs[k], #[trigger] ws[k])
    &&& forall|k: int|
        0 <= k < xs.len() ==> multiplies(numerics, #[trigger] partial[k], ws[k], partial[k + 1])
}

/// Whether `r` is the product of the numbers under the numerics: one,
/// multiplied by each number in turn, widened.
pub open spec fn multiplies_to<N: Numerics>(numerics: &N, xs: Seq<Number>, r: Float) -> bool {
    exists|ws: Seq<Float>, partial: Seq<Float>|
        #![trigger is_running_product(numerics, xs, ws, partial)]
        is_running_product(numerics, xs, ws, partial) && r == partial[xs.len() as int]
}

/// `+`: at least two numbers. Integers give their sum as an integer; with a
/// floating-point number among them the sum is a floating-point number.
pub open spec fn addition_spec(args: Seq<Val>) -> Result<Answer, Seq<char>> {
    if args.len() < 2 {
        Err("`+` must have at least 2 arguments."@)
    } else if !all_numeric(args) {
        Err("Can't add types other than int and float."@)
    } else if all_integers(args) {
        match checked_sum(args) {
            Some(sum) => Ok(Answer::Exactly(Val::Integer(sum))),
            None => Err("Integer overflow in `+`."@),
        }
    } else {
        Ok(Answer::Computed(Computation::Sum(numbers(args))))
    }
}

/// `+`.
pub fn addition<N: Numerics>(numerics: &N, vals: Vec<Value>) -> (r: Result<Value, RuntimeError>)
    ensures
        meets(numerics, r, addition_spec(views(vals@))),
{
    if vals.len() < 2 {
        return fail("`+` must have at least 2 arguments.");
    }
    let ghost s = views(vals@);
    match numeric_kind(&vals) {
        None => fail("Can't add types other than int and float."),
        Some(ValueType::Integer) => {
            let mut sum: i64 = 0;
            let mut i: usize = 0;
            while i < vals.len()
                invariant
                    i <= vals.len(),
                    s == views(vals@),
                    all_integers(s),
                    all_numeric(s),
                    vals.len() >= 2,
                    checked_sum(s.take(i as int)) == Some(sum as int),
                decreases vals.len() - i,
            {
                proof {
                    assert(s.take(i + 1).drop_last() =~= s.take(i as int));
                }
                let v = match &vals[i] {
                    Value::Integer(v) => *v,
                    _ => 0,
                };
                match sum.checked_add(v) {
                    Some(t) => {
                        sum = t;
                    },
                    None => {
                        proof {
                            lemma_sum_overflow(s, i + 1);
                        }
                        return fail("Integer overflow in `+`.");
                    },
                }
                i += 1;
            }
            proof {
                assert(s.take(i as int) =~= s);
            }
            Ok(Value::Integer(sum))
        },
        Some(_) => {
            let ghost xs = numbers(s);
            let ghost mut ws: Seq<Float> = Seq::empty();
            let ghost mut partial: Seq<Float> = seq![Float::spec_zero()];
            let mut sum = Float::zero();
            let mut i: usize = 0;
            while i < vals.len()
                invariant
                    i <= vals.len(),
                    s == views(vals@),
                    xs == numbers(s),
                    all_numeric(s),
                    is_running_sum(numerics, xs.take(i as int), ws, partial),
                    sum == partial[i as int],
                decreases vals.len() - i,
            {
                assert(s[i as int] == vals@[i as int]@);
                let x = widen(numerics, number_of(&vals[i]));
                sum = numerics.plus(sum, x);
                proof {
                    ws = ws.push(x);
                    partial = partial.push(sum);
                }
                i += 1;
            }
            proof {
                assert(xs.take(i as int) =~= xs);
            }
            Ok(Value::Float(sum))
        },
    }
}

/// `*`: at least two numbers. Integers give their product as an integer;
/// with a floating-point number among them the product is a floating-point
/// number.
pub open spec fn multiplication_spec(args: Seq<Val>) -> Result<Answer, Seq<char>> {
    if args.len() < 2 {
        Err("`*` must have at least 2 arguments."@)
    } else if !all_numeric(args) {
        Err("Can't multiply types other than int and float."@)
    } else if all_integers(args) {
        match checked_product(args) {
            Some(product) => Ok(Answer::Exactly(Val::Integer(product))),
            None => Err("Integer overflow in `*`."@),
        }
    } else {
        Ok(Answer::Computed(Computation::Product(numbers(args))))
    }
}

/// `*`.
pub fn multiplication<N: Numerics>(numerics: &N, vals: Vec<Value>) -> (r: Result<
    Value,
    RuntimeError,
>)
    ensures
        meets(numerics, r, multiplication_spec(views(vals@))),
{
    if vals.len() < 2 {
        return fail("`*` must have at least 2 arguments.");
    }
    let ghost s = views(vals@);
    match numeric_kind(&vals) {
        None => fail("Can't multiply types other than int and float."),
        Some(ValueType::Integer) => {
            let mut product: i64 = 1;
            let mut i: usize = 0;
            while i < vals.len()
                invariant
                    i <= vals.len(),
                    s == views(vals@),
                    all_integers(s),
                    all_numeric(s),
                    vals.len() >= 2,
                    checked_product(s.take(i as int)) == Some(product as int),
                decreases vals.len() - i,
            {
                proof {
                    assert(s.take(i + 1).drop_last() =~= s.take(i as int));
                }
                let v = match &vals[i] {
                    Value::Integer(v) => *v,
                    _ => 0,
                };
                match product.checked_mul(v) {
                    Some(t) => {
                        product = t;
                    },
                    None => {
                        proof {
                            lemma_product_overflow(s, i + 1);
                        }
                        return fail("Integer overflow in `*`.");
                    },
                }
                i += 1;
            }
            proof {
                assert(s.take(i as int) =~= s);
            }
            Ok(Value::Integer(product))
        },
        Some(_) => {
            let ghost xs = numbers(s);
            let ghost mut ws: Seq<Float> = Seq::empty();
            let ghost mut partial: Seq<Float> = seq![Float::spec_one()];
            let mut product = Float::one();
            let mut i: usize = 0;
            while i < vals.len()
                invariant
                    i <= vals.len(),
                    s == views(vals@),
                    xs == numbers(s),
                    all_numeric(s),
                    is_running_product(numerics, xs.take(i as int), ws, partial),
                    product == partial[i as int],
                decreases vals.len() - i,
            {
                assert(s[i as int] == vals@[i as int]@);
                let x = widen(numerics, number_of(&vals[i]));
                product = numerics.times(product, x);
                proof {
                    ws = ws.push(x);
                    partial = partial.push(product);
                }
                i += 1;
            }
            proof {
                assert(xs.take(i as int) =~= xs);
            }
            Ok(Value::Float(product))
        },
    }
}

/// `-`: of one number its negation, of two their difference. Integers give
/// an integer; with a floating-point number the result is a floating-point
/// number.
pub open spec fn subtraction_spec(args: Seq<Val>) -> Result<Answer, Seq<char>> {
    if args.len() == 1 {
        match numeric_type_spec("negation"@, args) {
            Err(message) => Err(message),
            Ok(ValueType::Integer) => if fits(-args[0]->Integer_0) {
                Ok(Answer::Exactly(Val::Integer(-args[0]->Integer_0)))
            } else {
                Err("Integer overflow in `-`."@)
            },
            Ok(_) => Ok(Answer::Computed(Computation::Negation(args[0]->Float_0))),
        }
    } else if args.len() == 2 {
        match numeric_type_spec("subtraction"@, args) {
            Err(message) => Err(message),
            Ok(ValueType::Integer) => if fits(args[0]->Integer_0 - args[1]->Integer_0) {
                Ok(Answer::Exactly(Val::Integer(args[0]->Integer_0 - args[1]->Integer_0)))
            } else {
                Err("Integer overflow in `-`."@)
            },
            Ok(_) => Ok(
                Answer::Computed(Computation::Difference(args[0].number(), args[1].number())),
            ),
        }
    } else {
        Err("`-` must have 1 or 2 arguments."@)
    }
}

/// `-`.
pub fn subtraction_or_negation<N: Numerics>(numerics: &N, vals: Vec<Value>) -> (r: Result<
    Value,
    RuntimeError,
>)
    ensures
        meets(numerics, r, subtraction_spec(views(vals@))),
{
    let ghost s = views(vals@);
    if vals.len() == 1 {
        assert_all_numeric_type("negation", &vals)?;
        match &vals[0] {
            Value::Integer(a) => {
                let zero: i64 = 0;
                match zero.checked_sub(*a) {
                    Some(t) => Ok(Value::Integer(t)),
                    None => fail("Integer overflow in `-`."),
                }
            },
            Value::Float(a) => {
                Ok(Value::Float(numerics.negate(*a)))
            },
            _ => fail("Integer overflow in `-`."),
        }
    } else if vals.len() == 2 {
        assert_all_numeric_type("subtraction", &vals)?;
        proof {
            lemma_first_non_numeric(s);
        }
        match (&vals[0], &vals[1]) {
            (Value::Integer(a), Value::Integer(b)) => {
                match a.checked_sub(*b) {
                    Some(t) => Ok(Value::Integer(t)),
                    None => fail("Integer overflow in `-`."),
                }
            },
            (x, y) => {
                let a = widen(numerics, number_of(x));
                let b = widen(numerics, number_of(y));
                Ok(Value::Float(numerics.minus(a, b)))
            },
        }
    } else {
        fail("`-` must have 1 or 2 arguments.")
    }
}

/// The quotient of `a` by `b`, which is not zero, rounded toward zero.
pub open spec fn truncated_quotient(a: int, b: int) -> int {
    if a >= 0 && b > 0 {
        a / b
    } else if a < 0 && b < 0 {
        (-a) / (-b)
    } else if a < 0 {
        -((-a) / b)
    } else {
        -(a / (-b))
    }
}

/// `/`: two numbers. Integers give their quotient rounded toward zero, and
/// an error where the divisor is zero; with a floating-point number the
/// quotient is a floating-point number, whatever the divisor.
pub open spec fn division_spec(args: Seq<Val>) -> Result<Answer, Seq<char>> {
    if args.len() == 2 {
        match numeric_type_spec("division"@, args) {
            Err(message) => Err(message),
            Ok(ValueType::Integer) => if args[1]->Integer_0 == 0 {
                Err("Division by zero."@)
            } else if fits(truncated_quotient(args[0]->Integer_0, args[1]->Integer_0)) {
                Ok(
                    Answer::Exactly(
                        Val::Integer(truncated_quotient(args[0]->Integer_0, args[1]->Integer_0)),
                    ),
                )
            } else {
                Err("Integer overflow in `/`."@)
            },
            Ok(_) => Ok(
                Answer::Computed(Computation::Quotient(args[0].number(), args[1].number())),
            ),
        }
    } else {
        Err("`/` must have 2 arguments."@)
    }
}

/// `/`.
pub fn division<N: Numerics>(numerics: &N, vals: Vec<Value>) -> (r: Result<Value, RuntimeError>)
    ensures
        meets(numerics, r, division_spec(views(vals@))),
{
    let ghost s = views(vals@);
    if vals.len() == 2 {
        assert_all_numeric_type("division", &vals)?;
        proof {
            lemma_first_non_numeric(s);
        }
        match (&vals[0], &vals[1]) {
            (Value::Integer(a), Value::Integer(b)) => {
                if *b == 0 {
                    return fail("Division by zero.");
                }
                match a.checked_div(*b) {
                    Some(t) => Ok(Value::Integer(t)),
                    None => fail("Integer overflow in `/`."),
                }
            },
            (x, y) => {
                let a = widen(numerics, number_of(x));
                let b = widen(numerics, number_of(y));
                Ok(Value::Float(numerics.divide(a, b)))
            },
        }
    } else {
        fail("`/` must have 2 arguments.")
    }
}

} // verus!
