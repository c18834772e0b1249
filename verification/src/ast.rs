//! The abstract syntax of programs, and its mathematical model.
use vstd::prelude::*;
use crate::types::Float;

verus! {

/// A name: of a variable, a parameter or a function.
#[derive(Debug, PartialEq)]
pub struct Ident(pub String);

impl View for Ident {
    type V = Seq<char>;

    open spec fn view(&self) -> Seq<char> {
        self.0@
    }
}

/// A function definition: its name, the names of its parameters, its body.
#[derive(Debug, PartialEq)]
pub struct Definition {
    pub ident: Ident,
    pub params: Vec<Ident>,
    pub body: Expression,
}

/// `let`: the bindings, made in order, each seeing the earlier ones, and the
/// body, whose last expression gives the value.
#[derive(Debug, PartialEq)]
pub struct Let {
    pub bindings: Vec<(Ident, Expression)>,
    pub body: Vec<Expression>,
}

/// `foreach`: each binding's expression gives a vector of `n_iters` values;
/// iteration `k` binds each name to element `k` and runs the body.
#[derive(Debug, PartialEq)]
pub struct ForEach {
    pub n_iters: usize,
    pub bindings: Vec<(Ident, Expression)>,
    pub body: Vec<Expression>,
}

/// `loop`: the function `fn_name` applied `n_iters` times, to the iteration's
/// number, the value so far and the parameters.
#[derive(Debug, PartialEq)]
pub struct Loop {
    pub n_iters: usize,
    pub accumulator: Box<Expression>,
    pub fn_name: Ident,
    pub params: Vec<Expression>,
}

/// An expression. `Sample` and `Observe` carry their address, which the
/// address pass assigns.
#[derive(Debug, PartialEq)]
pub enum Expression {
    Variable(Ident),
    Let(Let),
    Sample(Box<Expression>, Option<usize>),
    Observe(Box<Expression>, Box<Expression>, Option<usize>),
    If(Box<Expression>, Box<Expression>, Box<Expression>),
    FunctionApplication(Ident, Vec<Expression>),
    Boolean(bool),
    Integer(i64),
    Float(Float),
    Vector(Vec<Expression>),
    ForEach(ForEach),
    Loop(Loop),
    Null,
}

/// A program: its function definitions and the expression to evaluate.
#[derive(Debug, PartialEq)]
pub struct Program {
    pub definitions: Vec<Definition>,
    pub expression: Expression,
}

/// The mathematical model of an [`Expression`].
pub enum Expr {
    Variable(Seq<char>),
    Let { names: Seq<Seq<char>>, inits: Seq<Expr>, body: Seq<Expr> },
    Sample(Box<Expr>, Option<nat>),
    Observe(Box<Expr>, Box<Expr>, Option<nat>),
    If(Box<Expr>, Box<Expr>, Box<Expr>),
    Apply(Seq<char>, Seq<Expr>),
    Boolean(bool),
    Integer(int),
    Float(Float),
    Vector(Seq<Expr>),
    ForEach { n_iters: nat, names: Seq<Seq<char>>, inits: Seq<Expr>, body: Seq<Expr> },
    Loop { n_iters: nat, accumulator: Box<Expr>, fn_name: Seq<char>, params: Seq<Expr> },
    Null,
}

/// The mathematical model of a [`Definition`].
pub struct Def {
    pub name: Seq<char>,
    pub params: Seq<Seq<char>>,
    pub body: Expr,
}

/// The mathematical model of a [`Program`].
pub struct Prog {
    pub definitions: Seq<Def>,
    pub expression: Expr,
}

/// The model of an address.
pub open spec fn address_model(a: Option<usize>) -> Option<nat> {
    match a {
        Some(n) => Some(n as nat),
        None => None,
    }
}

/// The names of the bindings, in order.
pub open spec fn binding_names(s: Seq<(Ident, Expression)>) -> Seq<Seq<char>> {
    Seq::new(s.len(), |i: int| s[i].0@)
}

/// The models of the names, one for one.
pub open spec fn names(s: Seq<Ident>) -> Seq<Seq<char>> {
    Seq::new(s.len(), |i: int| s[i]@)
}

impl Expression {
    /// The model of the expression.
    pub open spec fn model(&self) -> Expr
        decreases self,
    {
        match self {
            Expression::Variable(name) => Expr::Variable(name@),
            Expression::Let(l) => Expr::Let {
                names: binding_names(l.bindings@),
                inits: Seq::new(
                    l.bindings@.len(),
                    |i: int|
                        if 0 <= i < l.bindings@.len() {
                            l.bindings@[i].1.model()
                        } else {
                            Expr::Null
                        },
                ),
                body: Seq::new(
                    l.body@.len(),
                    |i: int|
                        if 0 <= i < l.body@.len() {
                            l.body@[i].model()
                        } else {
                            Expr::Null
                        },
                ),
            },
            Expression::Sample(e, a) => Expr::Sample(Box::new(e.model()), address_model(*a)),
            Expression::Observe(d, v, a) => Expr::Observe(
                Box::new(d.model()),
                Box::new(v.model()),
                address_model(*a),
            ),
            Expression::If(c, t, e) => Expr::If(
                Box::new(c.model()),
                Box::new(t.model()),
                Box::new(e.model()),
            ),
            Expression::FunctionApplication(name, args) => Expr::Apply(
                name@,
                Seq::new(
                    args@.len(),
                    |i: int|
                        if 0 <= i < args@.len() {
                            args@[i].model()
                        } else {
                            Expr::Null
                        },
                ),
            ),
            Expression::Boolean(b) => Expr::Boolean(*b),
            Expression::Integer(i) => Expr::Integer(*i as int),
            Expression::Float(x) => Expr::Float(*x),
            Expression::Vector(items) => Expr::Vector(
                Seq::new(
                    items@.len(),
                    |i: int|
                        if 0 <= i < items@.len() {
                            items@[i].model()
                        } else {
                            Expr::Null
                        },
                ),
            ),
            Expression::ForEach(f) => Expr::ForEach {
                n_iters: f.n_iters as nat,
                names: binding_names(f.bindings@),
                inits: Seq::new(
                    f.bindings@.len(),
                    |i: int|
                        if 0 <= i < f.bindings@.len() {
                            f.bindings@[i].1.model()
                        } else {
                            Expr::Null
                        },
                ),
                body: Seq::new(
                    f.body@.len(),
                    |i: int|
                        if 0 <= i < f.body@.len() {
                            f.body@[i].model()
                        } else {
                            Expr::Null
                        },
                ),
            },
            Expression::Loop(l) => Expr::Loop {
                n_iters: l.n_iters as nat,
                accumulator: Box::new(l.accumulator.model()),
                fn_name: l.fn_name@,
                params: Seq::new(
                    l.params@.len(),
                    |i: int|
                        if 0 <= i < l.params@.len() {
                            l.params@[i].model()
                        } else {
                            Expr::Null
                        },
                ),
            },
            Expression::Null => Expr::Null,
        }
    }
}

impl View for Expression {
    type V = Expr;

    open spec fn view(&self) -> Expr {
        self.model()
    }
}

/// The models of a sequence of expressions, one for one.
pub open spec fn exprs(s: Seq<Expression>) -> Seq<Expr> {
    Seq::new(s.len(), |i: int| s[i]@)
}

/// The models of the bindings' expressions, one for one.
pub open spec fn binding_inits(s: Seq<(Ident, Expression)>) -> Seq<Expr> {
    Seq::new(s.len(), |i: int| s[i].1@)
}

impl View for Definition {
    type V = Def;

    open spec fn view(&self) -> Def {
        Def { name: self.ident@, params: names(self.params@), body: self.body@ }
    }
}

/// The models of the definitions, one for one.
pub open spec fn defs(s: Seq<Definition>) -> Seq<Def> {
    Seq::new(s.len(), |i: int| s[i]@)
}

impl View for Program {
    type V = Prog;

    open spec fn view(&self) -> Prog {
        Prog { definitions: defs(self.definitions@), expression: self.expression@ }
    }
}

/// The model of each kind of expression, over the models of its parts.
pub proof fn lemma_expression_view(e: Expression)
    ensures
        e matches Expression::Let(l) ==> e@ == (Expr::Let {
            names: binding_names(l.bindings@),
            inits: binding_inits(l.bindings@),
            body: exprs(l.body@),
        }),
        e matches Expression::FunctionApplication(name, args) ==> e@ == Expr::Apply(
            name@,
            exprs(args@),
        ),
        e matches Expression::Vector(items) ==> e@ == Expr::Vector(exprs(items@)),
        e matches Expression::ForEach(f) ==> e@ == (Expr::ForEach {
            n_iters: f.n_iters as nat,
            names: binding_names(f.bindings@),
            inits: binding_inits(f.bindings@),
            body: exprs(f.body@),
        }),
        e matches Expression::Loop(l) ==> e@ == (Expr::Loop {
            n_iters: l.n_iters as nat,
            accumulator: Box::new(l.accumulator@),
            fn_name: l.fn_name@,
            params: exprs(l.params@),
        }),
{
    match e {
        Expression::Let(l) => {
            assert(e@->Let_inits =~= binding_inits(l.bindings@));
            assert(e@->Let_body =~= exprs(l.body@));
        },
        Expression::FunctionApplication(name, args) => {
            assert(e@->Apply_1 =~= exprs(args@));
        },
        Expression::Vector(items) => {
            assert(e@->Vector_0 =~= exprs(items@));
        },
        Expression::ForEach(f) => {
            assert(e@->ForEach_inits =~= binding_inits(f.bindings@));
            assert(e@->ForEach_body =~= exprs(f.body@));
        },
        Expression::Loop(l) => {
            assert(e@->Loop_params =~= exprs(l.params@));
        },
        _ => {},
    }
}

} // verus!
