//! Runtime values, their mathematical model and the runtime error.
use vstd::prelude::*;
use crate::distributions::{Dist, Distribution};

verus! {

/// A floating-point number, held by its IEEE 754 binary64 bit pattern.
///
/// The library moves such numbers around and never computes on them: two
/// `Float`s are equal when their bits are.
#[derive(Clone, Copy, Debug, PartialEq, Eq, Structural)]
pub struct Float {
    pub bits: u64,
}

impl Float {
    /// The number with the given bit pattern.
    pub fn from_bits(bits: u64) -> (r: Float)
        ensures
            r.bits == bits,
    {
        Float { bits }
    }

    /// Positive zero.
    pub fn zero() -> (r: Float)
        ensures
            r == Self::spec_zero(),
    {
        Float { bits: 0 }
    }

    /// One.
    pub fn one() -> (r: Float)
        ensures
            r == Self::spec_one(),
    {
        Float { bits: 0x3FF0_0000_0000_0000 }
    }

    /// Positive zero.
    pub open spec fn spec_zero() -> Float {
        Float { bits: 0 }
    }

    /// One.
    pub open spec fn spec_one() -> Float {
        Float { bits: 0x3FF0_0000_0000_0000 }
    }

    /// Whether the number compares `>= 0`: it is no NaN, and it is zero of
    /// either sign, positive, or positive infinity.
    pub open spec fn spec_is_non_negative(self) -> bool {
        self.bits <= 0x7FF0_0000_0000_0000 || self.bits == 0x8000_0000_0000_0000
    }

    /// Whether the number compares `>= 0`.
    #[verifier::when_used_as_spec(spec_is_non_negative)]
    pub fn is_non_negative(self) -> (r: bool)
        ensures
            r == self.spec_is_non_negative(),
    {
        self.bits <= 0x7FF0_0000_0000_0000 || self.bits == 0x8000_0000_0000_0000
    }
}

/// A number as an operator receives it: an integer, or a floating-point
/// number. An integer is widened only where arithmetic needs it.
#[derive(Clone, Copy, Debug, PartialEq, Eq, Structural)]
pub enum Number {
    Integer(i64),
    Float(Float),
}

/// The kind of a runtime value.
#[derive(Clone, Copy, Debug, PartialEq, Eq, Structural)]
pub enum ValueType {
    Float,
    Integer,
    Boolean,
    Distribution,
    Vector,
    Null,
}

impl ValueType {
    /// The name of the kind, as error messages show it.
    pub open spec fn spec_name(self) -> Seq<char> {
        match self {
            ValueType::Float => "Float"@,
            ValueType::Integer => "Integer"@,
            ValueType::Boolean => "Boolean"@,
            ValueType::Distribution => "Distribution"@,
            ValueType::Vector => "Vector"@,
            ValueType::Null => "Null"@,
        }
    }

    /// The name of the kind, as error messages show it.
    pub fn name(&self) -> (r: &'static str)
        ensures
            r@ == self.spec_name(),
    {
        match self {
            ValueType::Float => "Float",
            ValueType::Integer => "Integer",
            ValueType::Boolean => "Boolean",
            ValueType::Distribution => "Distribution",
            ValueType::Vector => "Vector",
            ValueType::Null => "Null",
        }
    }
}

/// A runtime value.
#[derive(Debug, PartialEq)]
pub enum Value {
    Float(Float),
    Integer(i64),
    Boolean(bool),
    Distribution(Distribution),
    Vector(Vec<Value>),
    Null,
}

/// The mathematical model of a [`Value`]: contracts speak of it.
pub enum Val {
    Float(Float),
    Integer(int),
    Boolean(bool),
    Distribution(Dist),
    Vector(Seq<Val>),
    Null,
}

impl Value {
    /// The model of the value.
    pub open spec fn model(&self) -> Val
        decreases self,
    {
        match self {
            Value::Float(x) => Val::Float(*x),
            Value::Integer(x) => Val::Integer(*x as int),
            Value::Boolean(x) => Val::Boolean(*x),
            Value::Distribution(d) => Val::Distribution(d@),
            Value::Vector(v) => Val::Vector(
                Seq::new(
                    v@.len(),
                    |i: int|
                        if 0 <= i < v@.len() {
                            v@[i].model()
                        } else {
                            Val::Null
                        },
                ),
            ),
            Value::Null => Val::Null,
        }
    }
}

impl View for Value {
    type V = Val;

    open spec fn view(&self) -> Val {
        self.model()
    }
}

/// The models of a sequence of values, one for one.
pub open spec fn views(s: Seq<Value>) -> Seq<Val> {
    Seq::new(s.len(), |i: int| s[i]@)
}

/// The model of a vector value is the sequence of its elements' models.
pub proof fn lemma_vector_view(v: Vec<Value>)
    ensures
        Value::Vector(v)@ == Val::Vector(views(v@)),
{
    assert(Value::Vector(v)@->Vector_0 =~= views(v@));
}

/// The models of a sequence with one more value.
pub proof fn lemma_views_push(s: Seq<Value>, x: Value)
    ensures
        views(s.push(x)) == views(s).push(x@),
{
}

impl Val {
    /// The kind of the value.
    pub open spec fn kind(self) -> ValueType {
        match self {
            Val::Float(_) => ValueType::Float,
            Val::Integer(_) => ValueType::Integer,
            Val::Boolean(_) => ValueType::Boolean,
            Val::Distribution(_) => ValueType::Distribution,
            Val::Vector(_) => ValueType::Vector,
            Val::Null => ValueType::Null,
        }
    }

    /// Whether the value is an integer or a floating-point number.
    pub open spec fn is_numeric(self) -> bool {
        self is Integer || self is Float
    }

    /// The number that a numeric value holds.
    pub open spec fn number(self) -> Number
        recommends
            self.is_numeric(),
    {
        match self {
            Val::Integer(i) => Number::Integer(i as i64),
            Val::Float(x) => Number::Float(x),
            _ => Number::Integer(0),
        }
    }
}

/// A runtime error: a message, and the error that caused it if there is one.
#[derive(Debug)]
pub struct RuntimeError {
    pub message: String,
    pub source: Option<Box<RuntimeError>>,
}

impl RuntimeError {
    /// An error with the given message and no cause.
    pub fn new(message: String) -> (r: Self)
        ensures
            r.message@ == message@,
            r.source is None,
    {
        Self { message, source: None }
    }

    /// An error with an empty message that carries `cause`.
    pub fn wrap(cause: RuntimeError) -> (r: Self)
        ensures
            r.message@ == Seq::<char>::empty(),
            r.source == Some(Box::new(cause)),
    {
        Self { message: String::new(), source: Some(Box::new(cause)) }
    }

    /// The text of the error: the message behind `Runtime Error: `, and behind
    /// that, for an error with a cause, `Caused by:` and the cause's text.
    pub open spec fn spec_render(self) -> Seq<char>
        decreases self,
    {
        let head = "Runtime Error: "@ + self.message@;
        match self.source {
            Some(cause) => head + "Caused by:"@ + cause.spec_render(),
            None => head,
        }
    }

    /// The text of the error.
    pub fn render(&self) -> (r: String)
        ensures
            r@ == self.spec_render(),
        decreases self,
    {
        let mut out = String::from_str("Runtime Error: ");
        out.append(self.message.as_str());
        match &self.source {
            Some(cause) => {
                out.append("Caused by:");
                let inner = cause.render();
                out.append(inner.as_str());
            },
            None => {},
        }
        out
    }
}

/// An error with the given message.
pub fn fail<T>(message: &str) -> (r: Result<T, RuntimeError>)
    ensures
        fails_with(r, message@),
{
    Err(RuntimeError::new(String::from_str(message)))
}

/// Whether `r` is an error with exactly this message and no cause.
pub open spec fn fails_with<T>(r: Result<T, RuntimeError>, message: Seq<char>) -> bool {
    r matches Err(e) && e.message@ == message && e.source is None
}

/// The model of a result: the model of its value, or its error.
pub open spec fn result_model(r: Result<Value, RuntimeError>) -> Result<Val, RuntimeError> {
    match r {
        Ok(v) => Ok(v@),
        Err(e) => Err(e),
    }
}

impl Value {
    /// The kind of the value.
    pub open spec fn spec_get_type(&self) -> ValueType {
        self@.kind()
    }

    /// The kind of the value.
    #[verifier::when_used_as_spec(spec_get_type)]
    pub fn get_type(&self) -> (r: ValueType)
        ensures
            r == self@.kind(),
    {
        match self {
            Self::Float(_) => ValueType::Float,
            Self::Integer(_) => ValueType::Integer,
            Self::Boolean(_) => ValueType::Boolean,
            Self::Distribution(_) => ValueType::Distribution,
            Self::Vector(_) => ValueType::Vector,
            Self::Null => ValueType::Null,
        }
    }

    /// The value as a count: an integer above zero that fits the machine's
    /// word. Anything else fails with `message`.
    pub fn try_into_usize(self, message: &str) -> (r: Result<usize, RuntimeError>)
        ensures
            match self@ {
                Val::Integer(x) if 0 < x <= usize::MAX => r == Ok::<usize, RuntimeError>(x as usize),
                _ => fails_with(r, message@),
            },
    {
        match self {
            Value::Integer(x) => {
                if x > 0 && x as u64 <= usize::MAX as u64 {
                    Ok(x as usize)
                } else {
                    fail(message)
                }
            },
            _ => fail(message),
        }
    }

    /// The integer that the value holds; anything but an integer fails with
    /// `message`.
    pub fn try_into_integer(self, message: &str) -> (r: Result<i64, RuntimeError>)
        ensures
            match self@ {
                Val::Integer(x) => r == Ok::<i64, RuntimeError>(x as i64),
                _ => fails_with(r, message@),
            },
    {
        match self {
            Value::Integer(x) => Ok(x),
            _ => fail(message),
        }
    }

    /// The floating-point number that the value holds; anything else, an
    /// integer too, fails with `message`.
    pub fn try_into_float(self, message: &str) -> (r: Result<Float, RuntimeError>)
        ensures
            match self@ {
                Val::Float(x) => r == Ok::<Float, RuntimeError>(x),
                _ => fails_with(r, message@),
            },
    {
        match self {
            Value::Float(x) => Ok(x),
            _ => fail(message),
        }
    }

    /// The number that the value holds; anything but an integer or a
    /// floating-point number fails with `message`.
    pub fn try_into_numeric(self, message: &str) -> (r: Result<Number, RuntimeError>)
        ensures
            if self@.is_numeric() {
                r == Ok::<Number, RuntimeError>(self@.number())
            } else {
                fails_with(r, message@)
            },
    {
        match self {
            Value::Float(x) => Ok(Number::Float(x)),
            Value::Integer(x) => Ok(Number::Integer(x)),
            _ => fail(message),
        }
    }

    /// The elements of a vector; anything but a vector fails with `message`.
    pub fn try_into_vector(self, message: &str) -> (r: Result<Vec<Value>, RuntimeError>)
        ensures
            match self@ {
                Val::Vector(s) => r matches Ok(v) && views(v@) == s,
                _ => fails_with(r, message@),
            },
    {
        match self {
            Value::Vector(v) => {
                Ok(v)
            },
            _ => fail(message),
        }
    }
}

impl Clone for Value {
    /// A copy of the value.
    fn clone(&self) -> (r: Value)
        ensures
            r@ == self@,
        decreases self,
    {
        match self {
            Value::Float(x) => Value::Float(*x),
            Value::Integer(x) => Value::Integer(*x),
            Value::Boolean(x) => Value::Boolean(*x),
            Value::Distribution(d) => Value::Distribution(d.clone()),
            Value::Vector(v) => {
                let out = duplicate_all(v);
                proof {
                    lemma_vector_view(*v);
                    lemma_vector_view(out);
                }
                Value::Vector(out)
            },
            Value::Null => Value::Null,
        }
    }
}

/// Copies of the values, one for one.
pub fn duplicate_all(v: &Vec<Value>) -> (out: Vec<Value>)
    ensures
        views(out@) == views(v@),
    decreases v,
{
    let mut out: Vec<Value> = Vec::new();
    let mut i: usize = 0;
    while i < v.len()
        invariant
            i <= v.len(),
            out.len() == i,
            forall|k: int| 0 <= k < i ==> out@[k]@ == v@[k]@,
        decreases v.len() - i,
    {
        out.push(v[i].clone());
        i += 1;
    }
    out
}

/// What an argument list can be turned into.
pub trait ValueImpls {
    /// The model of the argument list.
    spec fn models(&self) -> Seq<Val>;

    /// The numbers that the values hold, in order; fails with `message` if
    /// one of them is no number.
    fn try_into_numeric(self, message: &str) -> (r: Result<Vec<Number>, RuntimeError>) where
        Self: Sized,
        ensures
            if all_numeric(self.models()) {
                r matches Ok(v) && v@ == numbers(self.models())
            } else {
                fails_with(r, message@)
            },
    ;

    /// The only value of the list; fails with `message` unless the list has
    /// exactly one.
    fn try_into_one(self, message: &str) -> (r: Result<Value, RuntimeError>) where Self: Sized
        ensures
            if self.models().len() == 1 {
                r matches Ok(x) && x@ == self.models()[0]
            } else {
                fails_with(r, message@)
            },
    ;
}

/// Whether every value of the sequence is a number.
pub open spec fn all_numeric(s: Seq<Val>) -> bool {
    forall|i: int| 0 <= i < s.len() ==> (#[trigger] s[i]).is_numeric()
}

/// The numbers that the values of the sequence hold.
pub open spec fn numbers(s: Seq<Val>) -> Seq<Number> {
    Seq::new(s.len(), |i: int| s[i].number())
}

impl ValueImpls for Vec<Value> {
    open spec fn models(&self) -> Seq<Val> {
        views(self@)
    }

    fn try_into_numeric(self, message: &str) -> (r: Result<Vec<Number>, RuntimeError>) {
        let mut out: Vec<Number> = Vec::new();
        let mut i: usize = 0;
        while i < self.len()
            invariant
                i <= self.len(),
                out.len() == i,
                forall|k: int| 0 <= k < i ==> (#[trigger] views(self@)[k]).is_numeric(),
                forall|k: int| 0 <= k < i ==> out@[k] == views(self@)[k].number(),
            decreases self.len() - i,
        {
            match &self[i] {
                Value::Float(x) => {
                    out.push(Number::Float(*x));
                },
                Value::Integer(x) => {
                    out.push(Number::Integer(*x));
                },
                _ => {
                    assert(!views(self@)[i as int].is_numeric());
                    return fail(message);
                },
            }
            i += 1;
        }
        Ok(out)
    }

    fn try_into_one(self, message: &str) -> (r: Result<Value, RuntimeError>) {
        if self.len() != 1 {
            return fail(message);
        }
        let mut items = self;
        match items.pop() {
            Some(x) => Ok(x),
            None => fail(message),
        }
    }
}

} // verus!
