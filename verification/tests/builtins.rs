use foppl::distributions::Numerics;
use foppl::types::Float;
use probability::distribution::Continuous;
use rand::rngs::StdRng;
use std::cell::RefCell;
use rand::{Rng, SeedableRng};
use rand_distr::Distribution as Draw;

/// Numerics on the machine's doubles, with a seeded random source.
#[allow(dead_code)]
struct Native {
    rng: RefCell<StdRng>,
}

#[allow(dead_code)]
impl Native {
    fn seeded(seed: u64) -> Native {
        Native { rng: RefCell::new(StdRng::seed_from_u64(seed)) }
    }
}

#[allow(dead_code)]
fn fl(x: f64) -> Float {
    Float { bits: x.to_bits() }
}

#[allow(dead_code)]
fn num(x: Float) -> f64 {
    f64::from_bits(x.bits)
}

impl Numerics for Native {
    fn from_int(&self, x: i64) -> Float {
        fl(x as f64)
    }

    fn plus(&self, a: Float, b: Float) -> Float {
        fl(num(a) + num(b))
    }

    fn minus(&self, a: Float, b: Float) -> Float {
        fl(num(a) - num(b))
    }

    fn times(&self, a: Float, b: Float) -> Float {
        fl(num(a) * num(b))
    }

    fn divide(&self, a: Float, b: Float) -> Float {
        fl(num(a) / num(b))
    }

    fn negate(&self, a: Float) -> Float {
        fl(-num(a))
    }

    fn less(&self, a: Float, b: Float) -> bool {
        num(a) < num(b)
    }

    fn less_eq(&self, a: Float, b: Float) -> bool {
        num(a) <= num(b)
    }

    fn equal(&self, a: Float, b: Float) -> bool {
        num(a) == num(b)
    }

    fn ln(&self, a: Float) -> Float {
        fl(num(a).ln())
    }

    fn exp(&self, a: Float) -> Float {
        fl(num(a).exp())
    }

    fn sqrt(&self, a: Float) -> Float {
        fl(num(a).sqrt())
    }

    fn tanh(&self, a: Float) -> Float {
        fl(num(a).tanh())
    }

    fn draw_normal(&self, mu: Float, sigma: Float) -> Option<Float> {
        let d = rand_distr::Normal::new(num(mu), num(sigma)).ok()?;
        Some(fl(d.sample(&mut *self.rng.borrow_mut())))
    }

    fn draw_discrete(&self, weights: &Vec<Float>) -> Option<usize> {
        let ws: Vec<f64> = weights.iter().map(|w| num(*w)).collect();
        let d = rand_distr::WeightedIndex::new(&ws).ok()?;
        Some(d.sample(&mut *self.rng.borrow_mut()))
    }

    fn draw_gamma(&self, alpha: Float, beta: Float) -> Option<Float> {
        let d = rand_distr::Gamma::new(num(alpha), num(beta)).ok()?;
        Some(fl(d.sample(&mut *self.rng.borrow_mut())))
    }

    fn draw_dirichlet(&self, parameters: &Vec<Float>) -> Option<Vec<Float>> {
        let ps: Vec<f64> = parameters.iter().map(|p| num(*p)).collect();
        let d = rand_distr::Dirichlet::new(&ps).ok()?;
        Some(d.sample(&mut *self.rng.borrow_mut()).into_iter().map(fl).collect())
    }

    fn draw_uniform(&self) -> Float {
        fl(self.rng.borrow_mut().gen::<f64>())
    }

    fn log_density_normal(&self, mu: Float, sigma: Float, x: Float) -> Option<Float> {
        let (mu, sigma, x) = (num(mu), num(sigma), num(x));
        if !(sigma > 0.0) {
            return None;
        }
        let z = (x - mu) / sigma;
        Some(fl(-(sigma * std::f64::consts::TAU.sqrt()).ln() - 0.5 * z * z))
    }

    fn log_mass_discrete(&self, weights: &Vec<Float>, index: usize) -> Option<Float> {
        let ws: Vec<f64> = weights.iter().map(|w| num(*w)).collect();
        let total: f64 = ws.iter().sum();
        if !(total > 0.0) || index >= ws.len() {
            return None;
        }
        Some(fl((ws[index] / total).ln()))
    }

    fn log_density_gamma(&self, alpha: Float, beta: Float, x: Float) -> Option<Float> {
        let (alpha, beta, x) = (num(alpha), num(beta), num(x));
        if !(alpha > 0.0 && beta > 0.0) {
            return None;
        }
        let d = probability::distribution::Gamma::new(alpha, beta);
        Some(fl(d.density(x).ln()))
    }
}
use foppl::distributions::{Discrete, Distribution, Normal};
use foppl::functions::arithmetic::{addition, division, multiplication, subtraction_or_negation};
use foppl::functions::comparisons::{comparison, ComparisonType};
use foppl::functions::constructors::{discrete, normal};
use foppl::functions::containers::{append, element, first, get, last, rest, second, vector, Place};
use foppl::functions::matrices::{
    check_matrix, matrix_addition, matrix_multiply, matrix_repeat, matrix_tanh, matrix_transpose,
};
use foppl::functions::numbers::assert_all_numeric_type;
use foppl::functions::scalars::{exp, log, scalar, sqrt, ScalarFunction};
use foppl::functions::{apply_builtin, find_builtin, Builtin};
use foppl::types::{Number, RuntimeError, Value, ValueType};

fn integer(i: i64) -> Value {
    Value::Integer(i)
}

fn float(x: f64) -> Value {
    Value::Float(fl(x))
}

fn vecv(items: Vec<Value>) -> Value {
    Value::Vector(items)
}

fn ints(items: &[i64]) -> Value {
    Value::Vector(items.iter().map(|i| Value::Integer(*i)).collect())
}

fn floats(items: &[f64]) -> Value {
    Value::Vector(items.iter().map(|x| Value::Float(fl(*x))).collect())
}

fn matrix_i(rows: &[&[i64]]) -> Value {
    Value::Vector(rows.iter().map(|r| ints(r)).collect())
}

fn matrix_f(rows: &[&[f64]]) -> Value {
    Value::Vector(rows.iter().map(|r| floats(r)).collect())
}

fn message(r: Result<Value, RuntimeError>) -> String {
    match r {
        Ok(v) => panic!("expected an error, got {:?}", v),
        Err(e) => e.message,
    }
}

fn as_f64(v: &Value) -> f64 {
    match v {
        Value::Float(x) => num(*x),
        other => panic!("expected a float, got {:?}", other),
    }
}

fn cells(v: &Value) -> Vec<Vec<f64>> {
    match v {
        Value::Vector(rows) => rows
            .iter()
            .map(|r| match r {
                Value::Vector(row) => row.iter().map(as_f64).collect(),
                other => panic!("expected a row, got {:?}", other),
            })
            .collect(),
        other => panic!("expected a matrix, got {:?}", other),
    }
}

#[test]
fn addition_of_integers_is_an_integer() {
    let n = Native::seeded(1);
    assert_eq!(addition(&n, vec![integer(1), integer(2), integer(3)]).unwrap(), integer(6));
    assert_eq!(addition(&n, vec![integer(-5), integer(5)]).unwrap(), integer(0));
}

#[test]
fn addition_promotes_to_float() {
    let n = Native::seeded(1);
    assert_eq!(addition(&n, vec![integer(1), integer(2), float(3.0)]).unwrap(), float(6.0));
    assert_eq!(addition(&n, vec![float(0.5), integer(2)]).unwrap(), float(2.5));
}

#[test]
fn addition_needs_two_arguments() {
    let n = Native::seeded(1);
    assert_eq!(message(addition(&n, vec![integer(1)])), "`+` must have at least 2 arguments.");
    assert_eq!(message(addition(&n, vec![])), "`+` must have at least 2 arguments.");
}

#[test]
fn addition_rejects_what_is_no_number() {
    let n = Native::seeded(1);
    assert_eq!(
        message(addition(&n, vec![integer(1), Value::Boolean(true)])),
        "Can't add types other than int and float."
    );
    assert_eq!(
        message(addition(&n, vec![float(1.0), ints(&[1])])),
        "Can't add types other than int and float."
    );
}

#[test]
fn addition_reports_integer_overflow() {
    let n = Native::seeded(1);
    assert_eq!(message(addition(&n, vec![integer(i64::MAX), integer(1)])), "Integer overflow in `+`.");
    assert_eq!(
        message(addition(&n, vec![integer(i64::MAX), integer(1), integer(-1)])),
        "Integer overflow in `+`."
    );
    assert_eq!(addition(&n, vec![integer(i64::MAX), integer(-1), integer(1)]).unwrap(), integer(i64::MAX));
}

#[test]
fn multiplication_of_integers_and_floats() {
    let n = Native::seeded(1);
    assert_eq!(multiplication(&n, vec![integer(2), integer(3), integer(4)]).unwrap(), integer(24));
    assert_eq!(multiplication(&n, vec![integer(2), float(1.5)]).unwrap(), float(3.0));
    assert_eq!(message(multiplication(&n, vec![integer(2)])), "`*` must have at least 2 arguments.");
    assert_eq!(
        message(multiplication(&n, vec![integer(2), Value::Null])),
        "Can't multiply types other than int and float."
    );
    assert_eq!(
        message(multiplication(&n, vec![integer(i64::MAX), integer(2)])),
        "Integer overflow in `*`."
    );
    assert_eq!(
        message(multiplication(&n, vec![integer(i64::MIN), integer(-1)])),
        "Integer overflow in `*`."
    );
}

#[test]
fn negation_and_subtraction() {
    let n = Native::seeded(1);
    assert_eq!(subtraction_or_negation(&n, vec![integer(5)]).unwrap(), integer(-5));
    assert_eq!(subtraction_or_negation(&n, vec![float(2.5)]).unwrap(), float(-2.5));
    assert_eq!(subtraction_or_negation(&n, vec![integer(5), integer(7)]).unwrap(), integer(-2));
    assert_eq!(subtraction_or_negation(&n, vec![float(5.0), integer(7)]).unwrap(), float(-2.0));
    assert_eq!(subtraction_or_negation(&n, vec![integer(5), float(0.5)]).unwrap(), float(4.5));
    assert_eq!(subtraction_or_negation(&n, vec![float(5.0), float(0.5)]).unwrap(), float(4.5));
}

#[test]
fn subtraction_errors() {
    let n = Native::seeded(1);
    assert_eq!(
        message(subtraction_or_negation(&n, vec![])),
        "`-` must have 1 or 2 arguments."
    );
    assert_eq!(
        message(subtraction_or_negation(&n, vec![integer(1), integer(2), integer(3)])),
        "`-` must have 1 or 2 arguments."
    );
    assert_eq!(
        message(subtraction_or_negation(&n, vec![Value::Boolean(true)])),
        "negation expected a numeric type, but found Boolean"
    );
    assert_eq!(
        message(subtraction_or_negation(&n, vec![integer(1), Value::Null])),
        "subtraction expected a numeric type, but found Null"
    );
    assert_eq!(
        message(subtraction_or_negation(&n, vec![integer(i64::MIN)])),
        "Integer overflow in `-`."
    );
    assert_eq!(
        message(subtraction_or_negation(&n, vec![integer(i64::MIN), integer(1)])),
        "Integer overflow in `-`."
    );
}

#[test]
fn integer_division_truncates_toward_zero() {
    let n = Native::seeded(1);
    assert_eq!(division(&n, vec![integer(7), integer(2)]).unwrap(), integer(3));
    assert_eq!(division(&n, vec![integer(-7), integer(2)]).unwrap(), integer(-3));
    assert_eq!(division(&n, vec![integer(7), integer(-2)]).unwrap(), integer(-3));
    assert_eq!(division(&n, vec![integer(-7), integer(-2)]).unwrap(), integer(3));
    assert_eq!(division(&n, vec![integer(0), integer(5)]).unwrap(), integer(0));
}

#[test]
fn float_division_promotes() {
    let n = Native::seeded(1);
    assert_eq!(division(&n, vec![float(7.0), integer(2)]).unwrap(), float(3.5));
    assert_eq!(division(&n, vec![integer(7), float(2.0)]).unwrap(), float(3.5));
    assert_eq!(division(&n, vec![float(1.0), float(4.0)]).unwrap(), float(0.25));
}

#[test]
fn integer_division_by_zero_is_an_error() {
    let n = Native::seeded(1);
    assert_eq!(message(division(&n, vec![integer(7), integer(0)])), "Division by zero.");
    assert_eq!(message(division(&n, vec![integer(i64::MIN), integer(-1)])), "Integer overflow in `/`.");
}

#[test]
fn float_division_by_zero_is_no_error() {
    let n = Native::seeded(1);
    assert_eq!(as_f64(&division(&n, vec![float(1.0), integer(0)]).unwrap()), f64::INFINITY);
    assert_eq!(as_f64(&division(&n, vec![float(-1.0), float(0.0)]).unwrap()), f64::NEG_INFINITY);
    assert!(as_f64(&division(&n, vec![float(0.0), float(0.0)]).unwrap()).is_nan());
}

#[test]
fn division_errors() {
    let n = Native::seeded(1);
    assert_eq!(message(division(&n, vec![integer(7)])), "`/` must have 2 arguments.");
    assert_eq!(message(division(&n, vec![integer(7), integer(1), integer(1)])), "`/` must have 2 arguments.");
    assert_eq!(
        message(division(&n, vec![ints(&[1]), integer(1)])),
        "division expected a numeric type, but found Vector"
    );
}

#[test]
fn numeric_type_is_contagious() {
    assert_eq!(assert_all_numeric_type("f", &vec![]).unwrap(), ValueType::Integer);
    assert_eq!(assert_all_numeric_type("f", &vec![integer(1), integer(2)]).unwrap(), ValueType::Integer);
    assert_eq!(assert_all_numeric_type("f", &vec![integer(1), float(2.0)]).unwrap(), ValueType::Float);
    assert_eq!(assert_all_numeric_type("f", &vec![float(1.0), integer(2)]).unwrap(), ValueType::Float);
    let e = assert_all_numeric_type("f", &vec![integer(1), Value::Null, Value::Boolean(true)])
        .unwrap_err();
    assert_eq!(e.message, "f expected a numeric type, but found Null");
}

#[test]
fn comparisons_of_integers() {
    let n = Native::seeded(1);
    let t = Value::Boolean(true);
    let f = Value::Boolean(false);
    assert_eq!(comparison(&n, ComparisonType::Less, vec![integer(1), integer(2)]).unwrap(), t);
    assert_eq!(comparison(&n, ComparisonType::Less, vec![integer(2), integer(2)]).unwrap(), f);
    assert_eq!(comparison(&n, ComparisonType::LessEqual, vec![integer(2), integer(2)]).unwrap(), t);
    assert_eq!(comparison(&n, ComparisonType::Equal, vec![integer(2), integer(2)]).unwrap(), t);
    assert_eq!(comparison(&n, ComparisonType::NotEqual, vec![integer(2), integer(2)]).unwrap(), f);
    assert_eq!(comparison(&n, ComparisonType::GreaterEqual, vec![integer(1), integer(2)]).unwrap(), f);
    assert_eq!(comparison(&n, ComparisonType::Greater, vec![integer(3), integer(2)]).unwrap(), t);
}

#[test]
fn comparisons_widen_to_float() {
    let n = Native::seeded(1);
    let t = Value::Boolean(true);
    let f = Value::Boolean(false);
    assert_eq!(comparison(&n, ComparisonType::Less, vec![integer(1), float(1.5)]).unwrap(), t);
    assert_eq!(comparison(&n, ComparisonType::Greater, vec![float(1.5), integer(1)]).unwrap(), t);
    assert_eq!(comparison(&n, ComparisonType::Equal, vec![float(2.0), integer(2)]).unwrap(), t);
    assert_eq!(comparison(&n, ComparisonType::NotEqual, vec![float(2.0), integer(2)]).unwrap(), f);
    assert_eq!(comparison(&n, ComparisonType::LessEqual, vec![float(2.5), float(2.5)]).unwrap(), t);
    assert_eq!(comparison(&n, ComparisonType::GreaterEqual, vec![float(2.0), float(2.5)]).unwrap(), f);
    assert_eq!(comparison(&n, ComparisonType::Equal, vec![float(f64::NAN), float(f64::NAN)]).unwrap(), f);
}

#[test]
fn comparison_errors() {
    let n = Native::seeded(1);
    assert_eq!(
        message(comparison(&n, ComparisonType::Less, vec![integer(1)])),
        "Comparison must have exactly two arguments."
    );
    assert_eq!(
        message(comparison(&n, ComparisonType::Less, vec![ints(&[1]), ints(&[2])])),
        "Comparison is only implemented for numbers."
    );
    assert_eq!(
        message(comparison(&n, ComparisonType::Equal, vec![integer(1), Value::Boolean(true)])),
        "Comparison is only implemented for numbers."
    );
}

#[test]
fn scalar_functions_give_floats() {
    let n = Native::seeded(1);
    assert_eq!(log(&n, vec![float(1.0)]).unwrap(), float(0.0));
    assert_eq!(log(&n, vec![integer(1)]).unwrap(), float(0.0));
    assert_eq!(exp(&n, vec![integer(0)]).unwrap(), float(1.0));
    assert_eq!(exp(&n, vec![float(1.0)]).unwrap(), float(std::f64::consts::E));
    assert_eq!(sqrt(&n, vec![integer(9)]).unwrap(), float(3.0));
    assert_eq!(sqrt(&n, vec![float(2.25)]).unwrap(), float(1.5));
    assert_eq!(scalar(&n, ScalarFunction::Sqrt, vec![integer(4)]).unwrap(), float(2.0));
}

#[test]
fn scalar_function_errors() {
    let n = Native::seeded(1);
    assert_eq!(message(log(&n, vec![])), "log must have 1 argument.");
    assert_eq!(message(exp(&n, vec![integer(1), integer(2)])), "exp must have 1 argument.");
    assert_eq!(message(sqrt(&n, vec![])), "sqrt must have 1 argument.");
    assert_eq!(
        message(sqrt(&n, vec![Value::Boolean(true)])),
        "sqrt expected a numeric type, but found Boolean"
    );
    assert_eq!(
        message(log(&n, vec![ints(&[1])])),
        "log expected a numeric type, but found Vector"
    );
}

#[test]
fn vector_collects_its_arguments() {
    assert_eq!(vector(vec![integer(1), float(2.0), Value::Null]).unwrap(), vecv(vec![integer(1), float(2.0), Value::Null]));
    assert_eq!(vector(vec![]).unwrap(), vecv(vec![]));
}

#[test]
fn get_returns_the_element_of_a_vector() {
    for i in 0..4 {
        let v = vector(vec![integer(10), integer(11), integer(12), integer(13)]).unwrap();
        assert_eq!(get(vec![v, integer(i)]).unwrap(), integer(10 + i));
    }
}

#[test]
fn get_out_of_bounds_is_an_error() {
    assert_eq!(message(get(vec![ints(&[1, 2, 3]), integer(3)])), "Index out of bounds.");
    assert_eq!(message(get(vec![ints(&[1, 2, 3]), integer(-1)])), "Index out of bounds.");
    assert_eq!(message(get(vec![ints(&[1, 2, 3]), integer(i64::MIN)])), "Index out of bounds.");
    assert_eq!(message(get(vec![ints(&[]), integer(0)])), "Index out of bounds.");
}

#[test]
fn get_errors() {
    assert_eq!(message(get(vec![ints(&[1])])), "`get` must have 2 arguments.");
    assert_eq!(message(get(vec![integer(1), integer(0)])), "First argument to `get` must be a vector.");
    assert_eq!(
        message(get(vec![ints(&[1]), float(0.0)])),
        "Second argument to `get` must be an integer."
    );
}

#[test]
fn append_then_get_returns_the_appended_value() {
    let appended = append(vec![ints(&[1, 2, 3]), float(9.5)]).unwrap();
    assert_eq!(appended, vecv(vec![integer(1), integer(2), integer(3), float(9.5)]));
    assert_eq!(get(vec![appended, integer(3)]).unwrap(), float(9.5));
    let one = append(vec![ints(&[]), Value::Null]).unwrap();
    assert_eq!(get(vec![one, integer(0)]).unwrap(), Value::Null);
}

#[test]
fn append_errors() {
    assert_eq!(message(append(vec![ints(&[1])])), "`append` must have exactly 2 arguments.");
    assert_eq!(
        message(append(vec![integer(1), integer(2)])),
        "First argument to `append` must be a vector."
    );
}

#[test]
fn first_second_last_rest() {
    assert_eq!(first(vec![ints(&[4, 5, 6])]).unwrap(), integer(4));
    assert_eq!(second(vec![ints(&[4, 5, 6])]).unwrap(), integer(5));
    assert_eq!(last(vec![ints(&[4, 5, 6])]).unwrap(), integer(6));
    assert_eq!(last(vec![ints(&[4])]).unwrap(), integer(4));
    assert_eq!(rest(vec![ints(&[4, 5, 6])]).unwrap(), ints(&[5, 6]));
    assert_eq!(rest(vec![ints(&[4])]).unwrap(), ints(&[]));
    assert_eq!(element(Place::Second, vec![ints(&[4, 5])]).unwrap(), integer(5));
}

#[test]
fn first_second_last_rest_errors() {
    assert_eq!(message(first(vec![ints(&[])])), "Index out of bounds.");
    assert_eq!(message(second(vec![ints(&[1])])), "Index out of bounds.");
    assert_eq!(message(last(vec![ints(&[])])), "Index out of bounds.");
    assert_eq!(message(rest(vec![ints(&[])])), "Index out of bounds.");
    assert_eq!(message(first(vec![])), "`first` must have exactly 1 argument.");
    assert_eq!(message(second(vec![integer(1), integer(2)])), "`second` must have exactly 1 argument.");
    assert_eq!(message(last(vec![])), "`last` must have exactly 1 argument.");
    assert_eq!(message(rest(vec![])), "`rest` must have exactly 1 argument.");
    assert_eq!(message(first(vec![integer(1)])), "Argument to `first` must be a vector.");
    assert_eq!(message(second(vec![integer(1)])), "Argument to `second` must be a vector.");
    assert_eq!(message(last(vec![integer(1)])), "Argument to `last` must be a vector.");
    assert_eq!(message(rest(vec![integer(1)])), "Argument to `rest` must be a vector.");
}

#[test]
fn transpose_swaps_rows_and_columns() {
    let m = matrix_i(&[&[1, 2, 3], &[4, 5, 6]]);
    let t = matrix_transpose(vec![m]).unwrap();
    assert_eq!(t, matrix_i(&[&[1, 4], &[2, 5], &[3, 6]]));
    for i in 0..2i64 {
        for j in 0..3i64 {
            let row = get(vec![matrix_transpose(vec![matrix_i(&[&[1, 2, 3], &[4, 5, 6]])]).unwrap(), integer(j)]).unwrap();
            assert_eq!(get(vec![row, integer(i)]).unwrap(), integer(1 + 3 * i + j));
        }
    }
}

#[test]
fn transpose_twice_is_the_matrix() {
    let back = matrix_transpose(vec![matrix_transpose(vec![matrix_f(&[&[1.0, 2.0], &[3.0, 4.0], &[5.0, 6.0]])]).unwrap()]).unwrap();
    assert_eq!(back, matrix_f(&[&[1.0, 2.0], &[3.0, 4.0], &[5.0, 6.0]]));
}

#[test]
fn transpose_keeps_values_of_any_kind() {
    let m = vecv(vec![vecv(vec![Value::Boolean(true), Value::Null])]);
    assert_eq!(
        matrix_transpose(vec![m]).unwrap(),
        vecv(vec![vecv(vec![Value::Boolean(true)]), vecv(vec![Value::Null])])
    );
}

#[test]
fn transpose_errors() {
    assert_eq!(message(matrix_transpose(vec![])), "`mat-transpose` must have exactly 1 argument.");
    assert_eq!(
        message(matrix_transpose(vec![integer(1)])),
        "The argument of `mat-transpose` must be a vector of vectors."
    );
    assert_eq!(
        message(matrix_transpose(vec![ints(&[])])),
        "The argument of `mat-transpose` must have at least one element."
    );
    assert_eq!(
        message(matrix_transpose(vec![ints(&[1, 2])])),
        "The argument of `mat-transpose` must be a rectangular vector of vectors that are not empty."
    );
    assert_eq!(
        message(matrix_transpose(vec![vecv(vec![ints(&[])])])),
        "The argument of `mat-transpose` must be a rectangular vector of vectors that are not empty."
    );
    assert_eq!(
        message(matrix_transpose(vec![vecv(vec![ints(&[1, 2]), ints(&[3])])])),
        "The argument of `mat-transpose` must be a rectangular vector of vectors that are not empty."
    );
}

#[test]
fn check_matrix_gives_the_dimensions() {
    assert_eq!(check_matrix("m ", &matrix_i(&[&[1, 2, 3], &[4, 5, 6]]), true).unwrap(), (2, 3));
    assert_eq!(
        check_matrix("m ", &vecv(vec![vecv(vec![Value::Null])]), false).unwrap(),
        (1, 1)
    );
    assert_eq!(
        check_matrix("m ", &vecv(vec![vecv(vec![Value::Null])]), true).unwrap_err().message,
        "m must hold numbers only."
    );
}

#[test]
fn repmat_tiles_the_matrix() {
    let r = matrix_repeat(vec![matrix_i(&[&[1, 2], &[3, 4]]), integer(2), integer(3)]).unwrap();
    assert_eq!(
        r,
        matrix_i(&[
            &[1, 2, 1, 2, 1, 2],
            &[3, 4, 3, 4, 3, 4],
            &[1, 2, 1, 2, 1, 2],
            &[3, 4, 3, 4, 3, 4],
        ])
    );
    assert_eq!(
        matrix_repeat(vec![matrix_i(&[&[7]]), integer(1), integer(1)]).unwrap(),
        matrix_i(&[&[7]])
    );
    assert_eq!(matrix_repeat(vec![matrix_i(&[&[7]]), integer(0), integer(5)]).unwrap(), vecv(vec![]));
    assert_eq!(
        matrix_repeat(vec![matrix_i(&[&[7]]), integer(2), integer(0)]).unwrap(),
        vecv(vec![vecv(vec![]), vecv(vec![])])
    );
}

#[test]
fn repmat_errors() {
    assert_eq!(
        message(matrix_repeat(vec![matrix_i(&[&[1]]), integer(1)])),
        "`mat-repmat` must have exactly 3 arguments."
    );
    assert_eq!(
        message(matrix_repeat(vec![integer(1), integer(1), integer(1)])),
        "Argument 1 to `mat-repmat` must be a vector of vectors."
    );
    assert_eq!(
        message(matrix_repeat(vec![matrix_i(&[&[1]]), float(1.0), integer(1)])),
        "The counts given to `mat-repmat` must be integers."
    );
    assert_eq!(
        message(matrix_repeat(vec![matrix_i(&[&[1]]), integer(1), integer(-1)])),
        "The counts given to `mat-repmat` must not be negative."
    );
    assert_eq!(
        message(matrix_repeat(vec![matrix_i(&[&[1], &[2], &[3]]), integer(i64::MAX), integer(1)])),
        "The result of `mat-repmat` is too large."
    );
}

#[test]
fn matrix_multiply_gives_the_product() {
    let n = Native::seeded(1);
    let p = matrix_multiply(&n, vec![matrix_i(&[&[1, 2], &[3, 4]]), matrix_i(&[&[5, 6], &[7, 8]])]).unwrap();
    assert_eq!(p, matrix_f(&[&[19.0, 22.0], &[43.0, 50.0]]));
    let q = matrix_multiply(&n, vec![matrix_f(&[&[1.0, 2.0, 3.0]]), matrix_i(&[&[1], &[2], &[3]])]).unwrap();
    assert_eq!(q, matrix_f(&[&[14.0]]));
    let r = matrix_multiply(&n, vec![matrix_i(&[&[1], &[2]]), matrix_f(&[&[0.5, 2.0]])]).unwrap();
    assert_eq!(r, matrix_f(&[&[0.5, 2.0], &[1.0, 4.0]]));
}

#[test]
fn matrix_multiply_errors() {
    let n = Native::seeded(1);
    assert_eq!(
        message(matrix_multiply(&n, vec![matrix_i(&[&[1]])])),
        "`mat-mul` must have exactly 2 arguments."
    );
    assert_eq!(
        message(matrix_multiply(&n, vec![matrix_i(&[&[1, 2]]), matrix_i(&[&[1, 2]])])),
        "`mat-mul` needs matrices with matching inner dimensions."
    );
    assert_eq!(
        message(matrix_multiply(&n, vec![integer(1), matrix_i(&[&[1, 2]])])),
        "Argument 1 to `mat-mul` must be a vector of vectors."
    );
    assert_eq!(
        message(matrix_multiply(&n, vec![matrix_i(&[&[1, 2]]), ints(&[])])),
        "Argument 2 to `mat-mul` must have at least one element."
    );
    assert_eq!(
        message(matrix_multiply(&n, vec![matrix_i(&[&[1, 2]]), vecv(vec![vecv(vec![Value::Null])])])),
        "Argument 2 to `mat-mul` must hold numbers only."
    );
}

#[test]
fn matrix_addition_of_equal_shapes() {
    let n = Native::seeded(1);
    let s = matrix_addition(&n, vec![matrix_i(&[&[1, 2], &[3, 4]]), matrix_f(&[&[0.5, 0.5], &[1.0, 1.0]])]).unwrap();
    assert_eq!(s, matrix_f(&[&[1.5, 2.5], &[4.0, 5.0]]));
}

#[test]
fn matrix_addition_broadcasts() {
    let n = Native::seeded(1);
    let row = matrix_addition(&n, vec![matrix_i(&[&[1, 2], &[3, 4]]), matrix_i(&[&[10, 20]])]).unwrap();
    assert_eq!(row, matrix_f(&[&[11.0, 22.0], &[13.0, 24.0]]));
    let col = matrix_addition(&n, vec![matrix_i(&[&[10], &[20]]), matrix_i(&[&[1, 2], &[3, 4]])]).unwrap();
    assert_eq!(col, matrix_f(&[&[11.0, 12.0], &[23.0, 24.0]]));
    let one = matrix_addition(&n, vec![matrix_i(&[&[1]]), matrix_i(&[&[1, 2], &[3, 4]])]).unwrap();
    assert_eq!(one, matrix_f(&[&[2.0, 3.0], &[4.0, 5.0]]));
}

#[test]
fn matrix_addition_broadcasts_a_row_and_a_column() {
    let n = Native::seeded(1);
    let row = matrix_i(&[&[1, 2, 3]]);
    let column = matrix_i(&[&[10], &[20], &[30]]);
    let expected = matrix_f(&[&[11.0, 12.0, 13.0], &[21.0, 22.0, 23.0], &[31.0, 32.0, 33.0]]);
    assert_eq!(matrix_addition(&n, vec![row.clone(), column.clone()]).unwrap(), expected);
    assert_eq!(matrix_addition(&n, vec![column, row]).unwrap(), expected);
    let short = matrix_addition(&n, vec![matrix_i(&[&[1, 2, 3]]), matrix_i(&[&[1], &[2]])]).unwrap();
    assert_eq!(short, matrix_f(&[&[2.0, 3.0, 4.0], &[3.0, 4.0, 5.0]]));
}

#[test]
fn matrix_addition_commutes() {
    let n = Native::seeded(1);
    let pairs = vec![
        (matrix_f(&[&[1.5, -2.0], &[3.25, 4.0]]), matrix_f(&[&[0.1, 0.2], &[0.3, 0.4]])),
        (matrix_i(&[&[1, 2], &[3, 4]]), matrix_f(&[&[10.5, 20.5]])),
        (matrix_f(&[&[1e16], &[-1e-3]]), matrix_i(&[&[1, 2, 3], &[4, 5, 6]])),
        (matrix_f(&[&[0.5, 1.5, 2.5]]), matrix_i(&[&[1], &[2], &[3]])),
    ];
    for (a, b) in pairs {
        let ab = cells(&matrix_addition(&n, vec![a.clone(), b.clone()]).unwrap());
        let ba = cells(&matrix_addition(&n, vec![b, a]).unwrap());
        assert_eq!(ab.len(), ba.len());
        for (ra, rb) in ab.iter().zip(ba.iter()) {
            assert_eq!(ra.len(), rb.len());
            for (x, y) in ra.iter().zip(rb.iter()) {
                assert!((x - y).abs() <= 1e-12 * x.abs().max(1.0));
            }
        }
    }
}

#[test]
fn matrix_addition_errors() {
    let n = Native::seeded(1);
    assert_eq!(
        message(matrix_addition(&n, vec![matrix_i(&[&[1]])])),
        "`mat-add` must have exactly 2 arguments."
    );
    assert_eq!(
        message(matrix_addition(&n, vec![matrix_i(&[&[1, 2, 3]]), matrix_i(&[&[1, 2]])])),
        "arguments to `mat-add` have incompatible dimensions."
    );
    assert_eq!(
        message(matrix_addition(
            &n,
            vec![matrix_i(&[&[1, 2, 3], &[4, 5, 6]]), matrix_i(&[&[1, 2], &[3, 4], &[5, 6]])]
        )),
        "arguments to `mat-add` have incompatible dimensions."
    );
    assert_eq!(
        message(matrix_addition(&n, vec![matrix_i(&[&[1], &[2], &[3]]), matrix_i(&[&[1], &[2]])])),
        "arguments to `mat-add` have incompatible dimensions."
    );
    assert_eq!(
        message(matrix_addition(&n, vec![matrix_i(&[&[1, 2]]), integer(3)])),
        "Argument 2 to `mat-add` must be a vector of vectors."
    );
    assert_eq!(
        message(matrix_addition(&n, vec![vecv(vec![vecv(vec![Value::Boolean(true)])]), matrix_i(&[&[1]])])),
        "Argument 1 to `mat-add` must hold numbers only."
    );
}

#[test]
fn matrix_tanh_is_elementwise() {
    let n = Native::seeded(1);
    let t = matrix_tanh(&n, vec![matrix_f(&[&[0.0, 1.0], &[-1.0, 0.5]])]).unwrap();
    assert_eq!(
        t,
        matrix_f(&[&[0.0, 1.0f64.tanh()], &[(-1.0f64).tanh(), 0.5f64.tanh()]])
    );
    let i = matrix_tanh(&n, vec![matrix_i(&[&[0, 2]])]).unwrap();
    assert_eq!(i, matrix_f(&[&[0.0, 2.0f64.tanh()]]));
}

#[test]
fn matrix_tanh_errors() {
    let n = Native::seeded(1);
    assert_eq!(message(matrix_tanh(&n, vec![])), "`mat-tanh` must have exactly 1 argument.");
    assert_eq!(
        message(matrix_tanh(&n, vec![integer(1)])),
        "The argument of `mat-tanh` must be a vector of vectors."
    );
    assert_eq!(
        message(matrix_tanh(&n, vec![vecv(vec![ints(&[1]), ints(&[1, 2])])])),
        "The argument of `mat-tanh` must be a rectangular vector of vectors that are not empty."
    );
}

#[test]
fn normal_keeps_its_parameters() {
    assert_eq!(
        normal(vec![integer(0), float(1.5)]).unwrap(),
        Value::Distribution(Distribution::Normal(Normal {
            mu: Number::Integer(0),
            sigma: Number::Float(fl(1.5)),
        }))
    );
    assert_eq!(message(normal(vec![integer(0)])), "Normal expects exactly two arguments.");
    assert_eq!(
        message(normal(vec![integer(0), Value::Null])),
        "normal expected a numeric type, but found Null"
    );
}

#[test]
fn discrete_keeps_its_weights() {
    assert_eq!(
        discrete(vec![vecv(vec![float(0.25), integer(3)])]).unwrap(),
        Value::Distribution(Distribution::Discrete(Discrete {
            weights: vec![Number::Float(fl(0.25)), Number::Integer(3)],
        }))
    );
    assert_eq!(
        discrete(vec![floats(&[0.0, -0.0, f64::INFINITY])]).is_ok(),
        true
    );
}

#[test]
fn discrete_errors() {
    let arity = "`discrete` expects exactly 1 argument, a vector of numbers.";
    assert_eq!(message(discrete(vec![])), arity);
    assert_eq!(message(discrete(vec![integer(1)])), arity);
    assert_eq!(message(discrete(vec![ints(&[1]), ints(&[1])])), arity);
    assert_eq!(
        message(discrete(vec![vecv(vec![integer(1), Value::Boolean(true)])])),
        "discrete expected a numeric type, but found Boolean"
    );
    assert_eq!(message(discrete(vec![ints(&[])])), "`discrete` expects at least one weight.");
    assert_eq!(
        message(discrete(vec![ints(&[1, -1])])),
        "`discrete` expects weights that are not negative."
    );
    assert_eq!(
        message(discrete(vec![floats(&[1.0, -0.5])])),
        "`discrete` expects weights that are not negative."
    );
    assert_eq!(
        message(discrete(vec![floats(&[1.0, f64::NAN])])),
        "`discrete` expects weights that are not negative."
    );
    assert_eq!(
        message(discrete(vec![floats(&[f64::NEG_INFINITY])])),
        "`discrete` expects weights that are not negative."
    );
}

#[test]
fn non_negative_floats_are_those_at_least_zero() {
    let samples = [
        0.0,
        -0.0,
        1.0,
        -1.0,
        f64::MIN_POSITIVE,
        -f64::MIN_POSITIVE,
        5e-324,
        -5e-324,
        f64::MAX,
        f64::MIN,
        f64::INFINITY,
        f64::NEG_INFINITY,
        f64::NAN,
        -f64::NAN,
    ];
    for x in samples {
        assert_eq!(fl(x).is_non_negative(), x >= 0.0, "{}", x);
        assert_eq!(Number::Float(fl(x)).is_non_negative(), x >= 0.0, "{}", x);
    }
    assert!(Number::Integer(0).is_non_negative());
    assert!(!Number::Integer(-1).is_non_negative());
}

#[test]
fn builtins_are_found_by_name() {
    let names = [
        "+", "*", "-", "/", "<", "<=", "<>", "=", ">=", ">", "vector", "get", "first", "second",
        "last", "rest", "append", "mat-transpose", "mat-repmat", "mat-mul", "mat-add", "mat-tanh",
        "log", "exp", "sqrt", "discrete", "normal",
    ];
    for name in names {
        assert!(find_builtin(&name.to_string()).is_some(), "{}", name);
    }
    assert_eq!(find_builtin(&"+".to_string()), Some(Builtin::Add));
    assert_eq!(find_builtin(&"<>".to_string()), Some(Builtin::Compare(ComparisonType::NotEqual)));
    assert_eq!(find_builtin(&"last".to_string()), Some(Builtin::Element(Place::Last)));
    assert_eq!(find_builtin(&"sqrt".to_string()), Some(Builtin::Scalar(ScalarFunction::Sqrt)));
    assert_eq!(find_builtin(&"plus".to_string()), None);
    assert_eq!(find_builtin(&"".to_string()), None);
}

#[test]
fn apply_builtin_applies_the_operator() {
    let n = Native::seeded(1);
    assert_eq!(apply_builtin(&n, Builtin::Add, vec![integer(1), integer(2)]).unwrap(), integer(3));
    assert_eq!(apply_builtin(&n, Builtin::Get, vec![ints(&[5, 6]), integer(1)]).unwrap(), integer(6));
    assert_eq!(
        apply_builtin(&n, Builtin::Compare(ComparisonType::Greater), vec![integer(1), integer(2)]).unwrap(),
        Value::Boolean(false)
    );
    assert_eq!(
        apply_builtin(&n, Builtin::Scalar(ScalarFunction::Exp), vec![integer(0)]).unwrap(),
        float(1.0)
    );
}
