//! The operators on vectors: `vector`, `get`, `first`, `second`, `last`,
//! `rest` and `append`.
use vstd::prelude::*;
use crate::functions::{exactly, Answer};
use crate::types::{fail, lemma_vector_view, views, RuntimeError, Val, Value};

verus! {

/// `vector`: the vector of the arguments.
pub open spec fn vector_spec(args: Seq<Val>) -> Result<Answer, Seq<char>> {
    Ok(Answer::Exactly(Val::Vector(args)))
}

/// `vector`.
pub fn vector(vals: Vec<Value>) -> (r: Result<Value, RuntimeError>)
    ensures
        exactly(r, vector_spec(views(vals@))),
{
    proof {
        lemma_vector_view(vals);
    }
    Ok(Value::Vector(vals))
}

/// `get`: a vector and an integer; the element at that index, which is at
/// least zero and below the vector's length.
pub open spec fn get_spec(args: Seq<Val>) -> Result<Answer, Seq<char>> {
    if args.len() != 2 {
        Err("`get` must have 2 arguments."@)
    } else {
        match args[0] {
            Val::Vector(list) => match args[1] {
                Val::Integer(index) => if 0 <= index < list.len() {
                    Ok(Answer::Exactly(list[index]))
                } else {
                    Err("Index out of bounds."@)
                },
                _ => Err("Second argument to `get` must be an integer."@),
            },
            _ => Err("First argument to `get` must be a vector."@),
        }
    }
}

/// The two arguments of a binary operator, in order.
pub(crate) fn take_two(vals: Vec<Value>) -> (r: (Value, Value))
    requires
        vals.len() == 2,
    ensures
        r.0 == vals@[0],
        r.1 == vals@[1],
{
    let mut vals = vals;
    let second = vals.pop();
    let first = vals.pop();
    match (first, second) {
        (Some(a), Some(b)) => (a, b),
        _ => (Value::Null, Value::Null),
    }
}

/// `get`.
pub fn get(vals: Vec<Value>) -> (r: Result<Value, RuntimeError>)
    ensures
        exactly(r, get_spec(views(vals@))),
{
    if vals.len() != 2 {
        return fail("`get` must have 2 arguments.");
    }
    let (list, index) = take_two(vals);
    let mut list = match list {
        Value::Vector(v) => {
            v
        },
        _ => {
            return fail("First argument to `get` must be a vector.");
        },
    };
    let index = match index {
        Value::Integer(v) => v,
        _ => {
            return fail("Second argument to `get` must be an integer.");
        },
    };
    if index < 0 || index as u64 >= list.len() as u64 {
        return fail("Index out of bounds.");
    }
    let found = list.swap_remove(index as usize);
    Ok(found)
}

/// A place in a vector.
#[derive(Clone, Copy, Debug, PartialEq, Eq, Structural)]
pub enum Place {
    First,
    Second,
    Last,
}

impl Place {
    /// The index of the place in a vector of `len` elements; an empty vector
    /// has no last element, and the index is then `len` itself.
    pub open spec fn index(self, len: nat) -> nat {
        match self {
            Place::First => 0,
            Place::Second => 1,
            Place::Last => if len == 0 {
                0
            } else {
                (len - 1) as nat
            },
        }
    }

    /// The name of the operator in programs.
    pub open spec fn spec_name(self) -> Seq<char> {
        match self {
            Place::First => "`first`"@,
            Place::Second => "`second`"@,
            Place::Last => "`last`"@,
        }
    }

    /// The name of the operator in programs.
    pub fn name(&self) -> (r: &'static str)
        ensures
            r@ == self.spec_name(),
    {
        match self {
            Place::First => "`first`",
            Place::Second => "`second`",
            Place::Last => "`last`",
        }
    }
}

/// `first`, `second` and `last`: a vector; the element at the place, which
/// the vector must have.
pub open spec fn element_spec(name: Seq<char>, place: Place, args: Seq<Val>) -> Result<
    Answer,
    Seq<char>,
> {
    if args.len() != 1 {
        Err(name + " must have exactly 1 argument."@)
    } else {
        match args[0] {
            Val::Vector(list) => if place.index(list.len()) < list.len() {
                Ok(Answer::Exactly(list[place.index(list.len()) as int]))
            } else {
                Err("Index out of bounds."@)
            },
            _ => Err("Argument to "@ + name + " must be a vector."@),
        }
    }
}

/// `first`, `second` or `last`.
pub fn element(place: Place, vals: Vec<Value>) -> (r: Result<Value, RuntimeError>)
    ensures
        exactly(r, element_spec(place.spec_name(), place, views(vals@))),
{
    if vals.len() != 1 {
        let mut message = String::from_str(place.name());
        message.append(" must have exactly 1 argument.");
        return Err(RuntimeError::new(message));
    }
    let mut vals = vals;
    let mut list = match vals.pop() {
        Some(Value::Vector(v)) => {
            v
        },
        _ => {
            let mut message = String::from_str("Argument to ");
            message.append(place.name());
            message.append(" must be a vector.");
            return Err(RuntimeError::new(message));
        },
    };
    let index: usize = match place {
        Place::First => 0,
        Place::Second => 1,
        Place::Last => if list.len() == 0 {
            0
        } else {
            list.len() - 1
        },
    };
    if index >= list.len() {
        return fail("Index out of bounds.");
    }
    let found = list.swap_remove(index);
    Ok(found)
}

/// `first`.
pub fn first(vals: Vec<Value>) -> (r: Result<Value, RuntimeError>)
    ensures
        exactly(r, element_spec("`first`"@, Place::First, views(vals@))),
{
    element(Place::First, vals)
}

/// `second`.
pub fn second(vals: Vec<Value>) -> (r: Result<Value, RuntimeError>)
    ensures
        exactly(r, element_spec("`second`"@, Place::Second, views(vals@))),
{
    element(Place::Second, vals)
}

/// `last`.
pub fn last(vals: Vec<Value>) -> (r: Result<Value, RuntimeError>)
    ensures
        exactly(r, element_spec("`last`"@, Place::Last, views(vals@))),
{
    element(Place::Last, vals)
}

/// `rest`: a vector that is not empty; the vector of its elements but the
/// first.
pub open spec fn rest_spec(args: Seq<Val>) -> Result<Answer, Seq<char>> {
    if args.len() != 1 {
        Err("`rest` must have exactly 1 argument."@)
    } else {
        match args[0] {
            Val::Vector(list) => if list.len() > 0 {
                Ok(Answer::Exactly(Val::Vector(list.drop_first())))
            } else {
                Err("Index out of bounds."@)
            },
            _ => Err("Argument to `rest` must be a vector."@),
        }
    }
}

/// `rest`.
pub fn rest(vals: Vec<Value>) -> (r: Result<Value, RuntimeError>)
    ensures
        exactly(r, rest_spec(views(vals@))),
{
    if vals.len() != 1 {
        return fail("`rest` must have exactly 1 argument.");
    }
    let mut vals = vals;
    let mut list = match vals.pop() {
        Some(Value::Vector(v)) => {
            proof {
                lemma_vector_view(v);
            }
            v
        },
        _ => {
            return fail("Argument to `rest` must be a vector.");
        },
    };
    if list.len() == 0 {
        return fail("Index out of bounds.");
    }
    let ghost items = list@;
    list.remove(0);
    proof {
        lemma_vector_view(list);
        assert(views(list@) =~= views(items).drop_first());
    }
    Ok(Value::Vector(list))
}

/// `append`: a vector and a value; the vector with the value behind its
/// last element.
pub open spec fn append_spec(args: Seq<Val>) -> Result<Answer, Seq<char>> {
    if args.len() != 2 {
        Err("`append` must have exactly 2 arguments."@)
    } else {
        match args[0] {
            Val::Vector(list) => Ok(Answer::Exactly(Val::Vector(list.push(args[1])))),
            _ => Err("First argument to `append` must be a vector."@),
        }
    }
}

/// `append`.
pub fn append(vals: Vec<Value>) -> (r: Result<Value, RuntimeError>)
    ensures
        exactly(r, append_spec(views(vals@))),
{
    if vals.len() != 2 {
        return fail("`append` must have exactly 2 arguments.");
    }
    let (list, el) = take_two(vals);
    let mut list = match list {
        Value::Vector(v) => {
            proof {
                lemma_vector_view(v);
            }
            v
        },
        _ => {
            return fail("First argument to `append` must be a vector.");
        },
    };
    let ghost items = list@;
    list.push(el);
    proof {
        lemma_vector_view(list);
        assert(views(list@) =~= views(items).push(el@));
    }
    Ok(Value::Vector(list))
}

} // verus!
