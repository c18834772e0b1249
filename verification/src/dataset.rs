//! The dataset that an inference run produces.
use vstd::prelude::*;
use crate::types::{fail, fails_with, lemma_vector_view, views, Float, RuntimeError, Val, Value};

verus! {

/// A scalar result: a boolean or a number.
#[derive(Clone, Copy, Debug, PartialEq, Eq, Structural)]
pub enum ResultValue {
    Boolean(bool),
    Int(i64),
    Float(Float),
}

/// The result of one run: a scalar, or a sequence of results.
#[derive(Debug, PartialEq)]
pub enum ProgramResult {
    One(ResultValue),
    Many(Vec<ProgramResult>),
}

/// The mathematical model of a [`ProgramResult`].
pub enum Outcome {
    One(ResultValue),
    Many(Seq<Outcome>),
}

impl ProgramResult {
    /// The model of the result.
    pub open spec fn model(&self) -> Outcome
        decreases self,
    {
        match self {
            ProgramResult::One(x) => Outcome::One(*x),
            ProgramResult::Many(v) => Outcome::Many(
                Seq::new(
                    v@.len(),
                    |i: int|
                        if 0 <= i < v@.len() {
                            v@[i].model()
                        } else {
                            Outcome::One(ResultValue::Boolean(false))
                        },
                ),
            ),
        }
    }
}

impl View for ProgramResult {
    type V = Outcome;

    open spec fn view(&self) -> Outcome {
        self.model()
    }
}

/// The models of a sequence of results, one for one.
pub open spec fn outcomes(s: Seq<ProgramResult>) -> Seq<Outcome> {
    Seq::new(s.len(), |i: int| s[i]@)
}

/// The model of a sequence of results is the sequence of their models.
pub proof fn lemma_many_view(v: Vec<ProgramResult>)
    ensures
        ProgramResult::Many(v)@ == Outcome::Many(outcomes(v@)),
{
    assert(ProgramResult::Many(v)@->Many_0 =~= outcomes(v@));
}

/// The outcome of an inference run: one entry for each recorded run. With
/// weights, each entry is the pair of the run's result and its log-weight.
#[derive(Debug, PartialEq)]
pub struct DataFile {
    pub has_weights: bool,
    pub data: Vec<ProgramResult>,
}

/// The mathematical model of a [`DataFile`].
pub struct Data {
    pub has_weights: bool,
    pub data: Seq<Outcome>,
}

impl View for DataFile {
    type V = Data;

    open spec fn view(&self) -> Data {
        Data { has_weights: self.has_weights, data: outcomes(self.data@) }
    }
}

/// Whether a value can stand in a dataset: it is a number or a boolean, or
/// a vector of such values.
pub open spec fn serializable(v: Val) -> bool
    decreases v,
{
    match v {
        Val::Integer(_) => true,
        Val::Float(_) => true,
        Val::Boolean(_) => true,
        Val::Vector(s) => forall|i: int| 0 <= i < s.len() ==> serializable(#[trigger] s[i]),
        _ => false,
    }
}

/// The result that stands for a serializable value in a dataset.
pub open spec fn flattened(v: Val) -> Outcome
    decreases v,
{
    match v {
        Val::Integer(i) => Outcome::One(ResultValue::Int(i as i64)),
        Val::Float(x) => Outcome::One(ResultValue::Float(x)),
        Val::Boolean(b) => Outcome::One(ResultValue::Boolean(b)),
        Val::Vector(s) => Outcome::Many(
            Seq::new(
                s.len(),
                |i: int|
                    if 0 <= i < s.len() {
                        flattened(s[i])
                    } else {
                        Outcome::One(ResultValue::Boolean(false))
                    },
            ),
        ),
        _ => Outcome::One(ResultValue::Boolean(false)),
    }
}

/// Whether every value of the sequence is serializable.
pub open spec fn all_serializable(s: Seq<Val>) -> bool {
    forall|i: int| 0 <= i < s.len() ==> serializable(#[trigger] s[i])
}

/// The results that stand for the values, one for one.
pub open spec fn flattened_all(s: Seq<Val>) -> Seq<Outcome> {
    Seq::new(s.len(), |i: int| flattened(s[i]))
}

/// The message of the error for a value that cannot stand in a dataset.
pub open spec fn not_serializable() -> Seq<char> {
    "Program should only return numbers, booleans or vectors of them."@
}

/// The results that stand for the values in a dataset, one for one; an
/// error if one of the values is not serializable.
pub fn flatten_to_numeric_vec_only(vals: &Vec<Value>) -> (r: Result<
    Vec<ProgramResult>,
    RuntimeError,
>)
    ensures
        if all_serializable(views(vals@)) {
            r matches Ok(out) && outcomes(out@) == flattened_all(views(vals@))
        } else {
            fails_with(r, not_serializable())
        },
    decreases vals,
{
    let ghost s = views(vals@);
    let mut out: Vec<ProgramResult> = Vec::new();
    let mut i: usize = 0;
    while i < vals.len()
        invariant
            i <= vals.len(),
            s == views(vals@),
            out.len() == i,
            forall|k: int| 0 <= k < i ==> serializable(#[trigger] s[k]),
            forall|k: int| 0 <= k < i ==> (#[trigger] out@[k])@ == flattened(s[k]),
        decreases vals.len() - i,
    {
        let item = match &vals[i] {
            Value::Integer(x) => ProgramResult::One(ResultValue::Int(*x)),
            Value::Float(x) => ProgramResult::One(ResultValue::Float(*x)),
            Value::Boolean(b) => ProgramResult::One(ResultValue::Boolean(*b)),
            Value::Vector(v) => {
                proof {
                    lemma_vector_view(*v);
                }
                match flatten_to_numeric_vec_only(v) {
                    Ok(inner) => {
                        proof {
                            lemma_many_view(inner);
                            assert(outcomes(inner@) =~= flattened(s[i as int])->Many_0);
                        }
                        ProgramResult::Many(inner)
                    },
                    Err(e) => {
                        return Err(e);
                    },
                }
            },
            _ => {
                return fail("Program should only return numbers, booleans or vectors of them.");
            },
        };
        out.push(item);
        i += 1;
    }
    Ok(out)
}

} // verus!
