//! What the operators need to know of their arguments as numbers.
use vstd::prelude::*;
use crate::types::{all_numeric, fails_with, views, Number, RuntimeError, Val, Value, ValueType};

verus! {

/// Whether every value of the sequence is an integer.
pub open spec fn all_integers(s: Seq<Val>) -> bool {
    forall|i: int| 0 <= i < s.len() ==> #[trigger] s[i] is Integer
}

/// Whether `x` lies in the range of `i64`.
pub open spec fn fits(x: int) -> bool {
    i64::MIN <= x <= i64::MAX
}

/// The index of the first value of the sequence that is no number.
pub open spec fn first_non_numeric(s: Seq<Val>) -> Option<int>
    decreases s.len(),
{
    if s.len() == 0 {
        None
    } else {
        match first_non_numeric(s.drop_last()) {
            Some(i) => Some(i),
            None => if s.last().is_numeric() {
                None
            } else {
                Some(s.len() - 1)
            },
        }
    }
}

/// `first_non_numeric` gives an index of a value that is no number, and gives
/// none exactly where all are numbers.
pub proof fn lemma_first_non_numeric(s: Seq<Val>)
    ensures
        match first_non_numeric(s) {
            Some(i) => 0 <= i < s.len() && !s[i].is_numeric() && all_numeric(s.take(i)),
            None => all_numeric(s),
        },
    decreases s.len(),
{
    if s.len() > 0 {
        let p = s.drop_last();
        lemma_first_non_numeric(p);
        match first_non_numeric(p) {
            Some(i) => {
                assert(p.take(i) =~= s.take(i));
            },
            None => {
                assert forall|k: int| 0 <= k < s.len() - 1 implies (#[trigger] s[k]).is_numeric() by {
                    assert(p[k] == s[k]);
                }
            },
        }
    }
}

/// The first value that is no number is found in every longer sequence too.
pub proof fn lemma_prefix_fault(s: Seq<Val>, n: int)
    requires
        0 <= n <= s.len(),
        first_non_numeric(s.take(n)) is Some,
    ensures
        first_non_numeric(s) == first_non_numeric(s.take(n)),
    decreases s.len() - n,
{
    if n < s.len() {
        let p = s.drop_last();
        assert(p.take(n) =~= s.take(n));
        lemma_prefix_fault(p, n);
    } else {
        assert(s.take(n) =~= s);
    }
}

/// The message for an argument of the kind `found` where `fn_name` wants a
/// number.
pub open spec fn not_numeric(fn_name: Seq<char>, found: ValueType) -> Seq<char> {
    fn_name + " expected a numeric type, but found "@ + found.spec_name()
}

/// What [`assert_all_numeric_type`] answers: `Integer` where all values are
/// integers, `Float` where all are numbers and one is no integer, and the
/// error for the first value that is no number.
pub open spec fn numeric_type_spec(fn_name: Seq<char>, s: Seq<Val>) -> Result<
    ValueType,
    Seq<char>,
> {
    match first_non_numeric(s) {
        Some(i) => Err(not_numeric(fn_name, s[i].kind())),
        None => Ok(
            if all_integers(s) {
                ValueType::Integer
            } else {
                ValueType::Float
            },
        ),
    }
}

/// The common numeric kind of the values: floating point is contagious.
pub fn assert_all_numeric_type(fn_name: &str, vals: &Vec<Value>) -> (r: Result<
    ValueType,
    RuntimeError,
>)
    ensures
        match numeric_type_spec(fn_name@, views(vals@)) {
            Ok(t) => r matches Ok(x) && x == t,
            Err(message) => fails_with(r, message),
        },
{
    let ghost s = views(vals@);
    let mut all_t = ValueType::Integer;
    let mut i: usize = 0;
    while i < vals.len()
        invariant
            i <= vals.len(),
            s == views(vals@),
            first_non_numeric(s.take(i as int)) is None,
            all_t == ValueType::Integer || all_t == ValueType::Float,
            all_t == ValueType::Integer <==> all_integers(s.take(i as int)),
        decreases vals.len() - i,
    {
        let this_el_type = vals[i].get_type();
        proof {
            assert(s.take(i + 1).drop_last() =~= s.take(i as int));
        }
        match this_el_type {
            ValueType::Integer => {},
            ValueType::Float => {
                all_t = ValueType::Float;
            },
            _ => {
                proof {
                    lemma_prefix_fault(s, i + 1);
                }
                let mut message = String::from_str(fn_name);
                message.append(" expected a numeric type, but found ");
                message.append(this_el_type.name());
                return Err(RuntimeError::new(message));
            },
        }
        i += 1;
    }
    proof {
        assert(s.take(i as int) =~= s);
    }
    Ok(all_t)
}

/// The number that a numeric value holds.
pub(crate) fn number_of(v: &Value) -> (r: Number)
    requires
        v@.is_numeric(),
    ensures
        r == v@.number(),
{
    match v {
        Value::Integer(i) => Number::Integer(*i),
        Value::Float(x) => Number::Float(*x),
        _ => Number::Integer(0),
    }
}

/// The numeric kind of the values: `None` where one is no number, `Integer`
/// where all are integers, `Float` otherwise.
pub(crate) fn numeric_kind(vals: &Vec<Value>) -> (r: Option<ValueType>)
    ensures
        match r {
            None => !all_numeric(views(vals@)),
            Some(ValueType::Integer) => all_integers(views(vals@)) && all_numeric(views(vals@)),
            Some(t) => t == ValueType::Float && all_numeric(views(vals@)) && !all_integers(
                views(vals@),
            ),
        },
{
    let ghost s = views(vals@);
    let mut floats = false;
    let mut i: usize = 0;
    while i < vals.len()
        invariant
            i <= vals.len(),
            s == views(vals@),
            forall|k: int| 0 <= k < i ==> (#[trigger] s[k]).is_numeric(),
            !floats ==> forall|k: int| 0 <= k < i ==> #[trigger] s[k] is Integer,
            floats ==> exists|k: int| 0 <= k < i && !(#[trigger] s[k] is Integer),
        decreases vals.len() - i,
    {
        match &vals[i] {
            Value::Integer(_) => {},
            Value::Float(_) => {
                floats = true;
            },
            _ => {
                assert(!s[i as int].is_numeric());
                return None;
            },
        }
        i += 1;
    }
    if floats {
        Some(ValueType::Float)
    } else {
        Some(ValueType::Integer)
    }
}

impl Number {
    /// Whether the number compares `>= 0`.
    pub open spec fn spec_is_non_negative(self) -> bool {
        match self {
            Number::Integer(i) => i >= 0,
            Number::Float(x) => x.is_non_negative(),
        }
    }

    /// Whether the number compares `>= 0`.
    #[verifier::when_used_as_spec(spec_is_non_negative)]
    pub fn is_non_negative(self) -> (r: bool)
        ensures
            r == self.spec_is_non_negative(),
    {
        match self {
            Number::Integer(i) => i >= 0,
            Number::Float(x) => x.is_non_negative(),
        }
    }
}

/// Whether none of the numbers is below zero.
pub open spec fn none_negative(s: Seq<Number>) -> bool {
    forall|i: int| 0 <= i < s.len() ==> (#[trigger] s[i]).is_non_negative()
}

} // verus!
