//! The distributions that a program can draw from and condition on, and the
//! numerics that the library asks of its caller.
use vstd::prelude::*;
use crate::types::{fail, fails_with, Float, Number, RuntimeError, Val, Value};

verus! {

/// What the library asks of its caller: arithmetic on floating-point
/// numbers, the densities of the distributions, and their random draws.
///
/// Nothing is assumed of an implementation: whatever a method hands back,
/// the library's contracts hold. Of a result of the numerics a contract
/// says which method gave it on which arguments, and no more; what an
/// implementation promises of its methods is thereby handed on (see
/// [`adds`] and the relations beside it).
pub trait Numerics {
    /// The floating-point number nearest to `x`.
    fn from_int(&self, x: i64) -> Float;

    /// `a + b`.
    fn plus(&self, a: Float, b: Float) -> Float;

    /// `a - b`.
    fn minus(&self, a: Float, b: Float) -> Float;

    /// `a * b`.
    fn times(&self, a: Float, b: Float) -> Float;

    /// `a / b`.
    fn divide(&self, a: Float, b: Float) -> Float;

    /// `-a`.
    fn negate(&self, a: Float) -> Float;

    /// `a < b`.
    fn less(&self, a: Float, b: Float) -> bool;

    /// `a <= b`.
    fn less_eq(&self, a: Float, b: Float) -> bool;

    /// `a == b`, as numbers: a NaN equals nothing, and the two zeros are
    /// equal.
    fn equal(&self, a: Float, b: Float) -> bool;

    /// The natural logarithm of `a`.
    fn ln(&self, a: Float) -> Float;

    /// `e` to the power `a`.
    fn exp(&self, a: Float) -> Float;

    /// The square root of `a`.
    fn sqrt(&self, a: Float) -> Float;

    /// The hyperbolic tangent of `a`.
    fn tanh(&self, a: Float) -> Float;

    /// A draw from the normal distribution with mean `mu` and standard
    /// deviation `sigma`, or `None` where the parameters admit none.
    fn draw_normal(&self, mu: Float, sigma: Float) -> Option<Float>;

    /// A draw from the distribution over `0 .. weights.len()` in which each
    /// index has the probability that its weight has in the sum, or `None`
    /// where the weights admit none.
    fn draw_discrete(&self, weights: &Vec<Float>) -> Option<usize>;

    /// A draw from the gamma distribution with shape `alpha` and scale
    /// `beta`, or `None` where the parameters admit none.
    fn draw_gamma(&self, alpha: Float, beta: Float) -> Option<Float>;

    /// A draw from the Dirichlet distribution with the given concentration
    /// parameters, or `None` where they admit none.
    fn draw_dirichlet(&self, parameters: &Vec<Float>) -> Option<Vec<Float>>;

    /// A draw from the uniform distribution on `[0, 1)`.
    fn draw_uniform(&self) -> Float;

    /// The logarithm of the normal density at `x`, or `None` where the
    /// parameters admit no density.
    fn log_density_normal(&self, mu: Float, sigma: Float, x: Float) -> Option<Float>;

    /// The logarithm of the probability of `index`, which is below
    /// `weights.len()`, or `None` where the weights are no probabilities.
    fn log_mass_discrete(&self, weights: &Vec<Float>, index: usize) -> Option<Float>;

    /// The logarithm of the gamma density at `x`, or `None` where the
    /// parameters admit no density.
    fn log_density_gamma(&self, alpha: Float, beta: Float, x: Float) -> Option<Float>;
}

/// Whether the numerics promise of `plus` on `a` and `b` what holds of `r`.
///
/// This and the relations below hand on what an implementation of
/// [`Numerics`] promises of its results. The library's contracts state the
/// results of floating-point computations through them: which operation was
/// asked of which operands, and that the result is one that the operation
/// may give.
pub open spec fn adds<N: Numerics>(numerics: &N, a: Float, b: Float, r: Float) -> bool {
    N::plus.ensures((numerics, a, b), r)
}

/// The same for `minus`.
pub open spec fn subtracts<N: Numerics>(numerics: &N, a: Float, b: Float, r: Float) -> bool {
    N::minus.ensures((numerics, a, b), r)
}

/// The same for `times`.
pub open spec fn multiplies<N: Numerics>(numerics: &N, a: Float, b: Float, r: Float) -> bool {
    N::times.ensures((numerics, a, b), r)
}

/// The same for `divide`.
pub open spec fn divides<N: Numerics>(numerics: &N, a: Float, b: Float, r: Float) -> bool {
    N::divide.ensures((numerics, a, b), r)
}

/// The same for `negate`.
pub open spec fn negates<N: Numerics>(numerics: &N, a: Float, r: Float) -> bool {
    N::negate.ensures((numerics, a), r)
}

/// The same for `less`.
pub open spec fn is_less<N: Numerics>(numerics: &N, a: Float, b: Float, r: bool) -> bool {
    N::less.ensures((numerics, a, b), r)
}

/// The same for `less_eq`.
pub open spec fn is_less_eq<N: Numerics>(numerics: &N, a: Float, b: Float, r: bool) -> bool {
    N::less_eq.ensures((numerics, a, b), r)
}

/// The same for `equal`.
pub open spec fn is_equal<N: Numerics>(numerics: &N, a: Float, b: Float, r: bool) -> bool {
    N::equal.ensures((numerics, a, b), r)
}

/// The same for `ln`.
pub open spec fn is_ln<N: Numerics>(numerics: &N, a: Float, r: Float) -> bool {
    N::ln.ensures((numerics, a), r)
}

/// The same for `exp`.
pub open spec fn is_exp<N: Numerics>(numerics: &N, a: Float, r: Float) -> bool {
    N::exp.ensures((numerics, a), r)
}

/// The same for `sqrt`.
pub open spec fn is_sqrt<N: Numerics>(numerics: &N, a: Float, r: Float) -> bool {
    N::sqrt.ensures((numerics, a), r)
}

/// The same for `tanh`.
pub open spec fn is_tanh<N: Numerics>(numerics: &N, a: Float, r: Float) -> bool {
    N::tanh.ensures((numerics, a), r)
}

/// Whether `r` is the number `x` as a floating-point number under the
/// numerics: `x` itself, or what `from_int` promises of the integer.
pub open spec fn widens_to<N: Numerics>(numerics: &N, x: Number, r: Float) -> bool {
    match x {
        Number::Float(f) => r == f,
        Number::Integer(i) => N::from_int.ensures((numerics, i), r),
    }
}

/// Whether the floating-point numbers are the numbers widened, one for one.
pub open spec fn all_widen_to<N: Numerics>(numerics: &N, xs: Seq<Number>, rs: Seq<Float>) -> bool {
    &&& rs.len() == xs.len()
    &&& forall|i: int| 0 <= i < xs.len() ==> widens_to(numerics, xs[i], #[trigger] rs[i])
}

/// The number as a floating-point number: itself, or the widened integer.
pub fn widen<N: Numerics>(numerics: &N, x: Number) -> (r: Float)
    ensures
        widens_to(numerics, x, r),
{
    match x {
        Number::Integer(i) => numerics.from_int(i),
        Number::Float(f) => f,
    }
}

/// The numbers as floating-point numbers, one for one.
pub fn widen_all<N: Numerics>(numerics: &N, xs: &Vec<Number>) -> (r: Vec<Float>)
    ensures
        all_widen_to(numerics, xs@, r@),
{
    let mut out: Vec<Float> = Vec::new();
    let mut i: usize = 0;
    while i < xs.len()
        invariant
            i <= xs.len(),
            out.len() == i,
            forall|k: int| 0 <= k < i ==> widens_to(numerics, xs@[k], #[trigger] out@[k]),
        decreases xs.len() - i,
    {
        out.push(widen(numerics, xs[i]));
        i += 1;
    }
    out
}

/// A normal distribution with mean `mu` and standard deviation `sigma`.
#[derive(Clone, Copy, Debug, PartialEq, Eq, Structural)]
pub struct Normal {
    pub mu: Number,
    pub sigma: Number,
}

/// A distribution over the indices of `weights`, each with the probability
/// that its weight has in their sum.
#[derive(Debug, PartialEq)]
pub struct Discrete {
    pub weights: Vec<Number>,
}

/// A gamma distribution with shape `alpha` and scale `beta`.
#[derive(Clone, Copy, Debug, PartialEq, Eq, Structural)]
pub struct Gamma {
    pub alpha: Number,
    pub beta: Number,
}

/// A Dirichlet distribution with the given concentration parameters.
#[derive(Debug, PartialEq)]
pub struct Dirichlet {
    pub parameters: Vec<Number>,
}

/// A distribution: what `sample` draws from and `observe` conditions on.
#[derive(Debug, PartialEq)]
pub enum Distribution {
    Normal(Normal),
    Discrete(Discrete),
    Gamma(Gamma),
    Dirichlet(Dirichlet),
}

/// The mathematical model of a [`Distribution`].
pub enum Dist {
    Normal { mu: Number, sigma: Number },
    Discrete { weights: Seq<Number> },
    Gamma { alpha: Number, beta: Number },
    Dirichlet { parameters: Seq<Number> },
}

impl View for Distribution {
    type V = Dist;

    open spec fn view(&self) -> Dist {
        match self {
            Distribution::Normal(d) => Dist::Normal { mu: d.mu, sigma: d.sigma },
            Distribution::Discrete(d) => Dist::Discrete { weights: d.weights@ },
            Distribution::Gamma(d) => Dist::Gamma { alpha: d.alpha, beta: d.beta },
            Distribution::Dirichlet(d) => Dist::Dirichlet { parameters: d.parameters@ },
        }
    }
}

/// Whether the numerics promise of `draw_normal` on these parameters what
/// holds of `r`.
pub open spec fn draws_normal<N: Numerics>(numerics: &N, mu: Float, sigma: Float, r: Option<Float>) -> bool {
    N::draw_normal.ensures((numerics, mu, sigma), r)
}

/// The same for `draw_gamma`.
pub open spec fn draws_gamma<N: Numerics>(numerics: &N, alpha: Float, beta: Float, r: Option<Float>) -> bool {
    N::draw_gamma.ensures((numerics, alpha, beta), r)
}

/// The same for `draw_discrete`.
pub open spec fn draws_discrete<N: Numerics>(numerics: &N, weights: Vec<Float>, r: Option<usize>) -> bool {
    N::draw_discrete.ensures((numerics, &weights), r)
}

/// The same for `draw_dirichlet`.
pub open spec fn draws_dirichlet<N: Numerics>(
    numerics: &N,
    parameters: Vec<Float>,
    r: Option<Vec<Float>>,
) -> bool {
    N::draw_dirichlet.ensures((numerics, &parameters), r)
}

/// The same for `draw_uniform`.
pub open spec fn draws_uniform<N: Numerics>(numerics: &N, r: Float) -> bool {
    N::draw_uniform.ensures((numerics,), r)
}

/// The same for `log_density_normal`.
pub open spec fn is_log_density_normal<N: Numerics>(
    numerics: &N,
    mu: Float,
    sigma: Float,
    x: Float,
    r: Option<Float>,
) -> bool {
    N::log_density_normal.ensures((numerics, mu, sigma, x), r)
}

/// The same for `log_density_gamma`.
pub open spec fn is_log_density_gamma<N: Numerics>(
    numerics: &N,
    alpha: Float,
    beta: Float,
    x: Float,
    r: Option<Float>,
) -> bool {
    N::log_density_gamma.ensures((numerics, alpha, beta, x), r)
}

/// The same for `log_mass_discrete`.
pub open spec fn is_log_mass_discrete<N: Numerics>(
    numerics: &N,
    weights: Vec<Float>,
    index: usize,
    r: Option<Float>,
) -> bool {
    N::log_mass_discrete.ensures((numerics, &weights, index), r)
}

/// The floating-point number that a draw holds, if it holds one.
pub open spec fn float_of(v: Option<Val>) -> Option<Float> {
    match v {
        Some(Val::Float(x)) => Some(x),
        _ => None,
    }
}

/// The value of a drawn index: the index itself where it is one of `len`
/// indices, and nothing else.
pub open spec fn index_value(answer: Option<usize>, len: nat) -> Option<Val> {
    match answer {
        Some(k) => if k < len && k <= i64::MAX {
            Some(Val::Integer(k as int))
        } else {
            None
        },
        None => None,
    }
}

/// The values of the floating-point numbers, one for one.
pub open spec fn float_vals(xs: Seq<Float>) -> Seq<Val> {
    Seq::new(xs.len(), |i: int| Val::Float(xs[i]))
}

/// The value of a drawn vector: the vector itself where it has `len`
/// numbers, and nothing else.
pub open spec fn vector_value(answer: Option<Vec<Float>>, len: nat) -> Option<Val> {
    match answer {
        Some(xs) => if xs.len() == len {
            Some(Val::Vector(float_vals(xs@)))
        } else {
            None
        },
        None => None,
    }
}

/// Whether `v` is what a draw from the distribution gives under the
/// numerics: the draw that the numerics make on the distribution's
/// parameters, widened; or nothing, where the numerics refuse or hand back
/// what the distribution does not admit.
pub open spec fn is_draw<N: Numerics>(numerics: &N, d: Dist, v: Option<Val>) -> bool {
    match d {
        Dist::Normal { mu, sigma } => {
            &&& v matches Some(x) ==> x is Float
            &&& exists|m: Float, s: Float|
                #![trigger widens_to(numerics, mu, m), widens_to(numerics, sigma, s)]
                widens_to(numerics, mu, m) && widens_to(numerics, sigma, s) && draws_normal(
                    numerics,
                    m,
                    s,
                    float_of(v),
                )
        },
        Dist::Gamma { alpha, beta } => {
            &&& v matches Some(x) ==> x is Float
            &&& exists|a: Float, b: Float|
                #![trigger widens_to(numerics, alpha, a), widens_to(numerics, beta, b)]
                widens_to(numerics, alpha, a) && widens_to(numerics, beta, b) && draws_gamma(
                    numerics,
                    a,
                    b,
                    float_of(v),
                )
        },
        Dist::Discrete { weights } => exists|ws: Vec<Float>, answer: Option<usize>|
            #![trigger draws_discrete(numerics, ws, answer)]
            all_widen_to(numerics, weights, ws@) && draws_discrete(numerics, ws, answer) && v
                == index_value(answer, weights.len()),
        Dist::Dirichlet { parameters } => exists|ps: Vec<Float>, answer: Option<Vec<Float>>|
            #![trigger draws_dirichlet(numerics, ps, answer)]
            all_widen_to(numerics, parameters, ps@) && draws_dirichlet(numerics, ps, answer) && v
                == vector_value(answer, parameters.len()),
    }
}

/// Whether `w` is the logarithm of the distribution's density at `v` under
/// the numerics, where the distribution has a density at a value of that
/// kind: what the numerics compute on the distribution's parameters and the
/// value, widened; or nothing, where the numerics refuse.
pub open spec fn is_log_density<N: Numerics>(numerics: &N, d: Dist, v: Val, w: Option<Float>) -> bool {
    match d {
        Dist::Normal { mu, sigma } => exists|m: Float, s: Float, x: Float|
            #![trigger is_log_density_normal(numerics, m, s, x, w)]
            widens_to(numerics, mu, m) && widens_to(numerics, sigma, s) && widens_to(
                numerics,
                v.number(),
                x,
            ) && is_log_density_normal(numerics, m, s, x, w),
        Dist::Gamma { alpha, beta } => exists|a: Float, b: Float, x: Float|
            #![trigger is_log_density_gamma(numerics, a, b, x, w)]
            widens_to(numerics, alpha, a) && widens_to(numerics, beta, b) && widens_to(
                numerics,
                v.number(),
                x,
            ) && is_log_density_gamma(numerics, a, b, x, w),
        Dist::Discrete { weights } => exists|ws: Vec<Float>|
            #![trigger all_widen_to(numerics, weights, ws@)]
            all_widen_to(numerics, weights, ws@) && is_log_mass_discrete(
                numerics,
                ws,
                v->Integer_0 as usize,
                w,
            ),
        Dist::Dirichlet { parameters } => false,
    }
}

impl Dist {
    /// The name of the distribution's family.
    pub open spec fn name(self) -> Seq<char> {
        match self {
            Dist::Normal { .. } => "normal"@,
            Dist::Discrete { .. } => "discrete"@,
            Dist::Gamma { .. } => "gamma"@,
            Dist::Dirichlet { .. } => "dirichlet"@,
        }
    }

    /// Whether a draw from the distribution can be the value `v`, by its
    /// shape alone: a floating-point number for a normal or a gamma
    /// distribution, an index of a weight for a discrete one, and for a
    /// Dirichlet distribution a vector of as many floating-point numbers as
    /// it has parameters.
    pub open spec fn admits(self, v: Val) -> bool {
        match self {
            Dist::Normal { .. } => v is Float,
            Dist::Gamma { .. } => v is Float,
            Dist::Discrete { weights } => v matches Val::Integer(k) && 0 <= k < weights.len(),
            Dist::Dirichlet { parameters } => {
                &&& v matches Val::Vector(s)
                &&& s.len() == parameters.len()
                &&& forall|i: int| 0 <= i < s.len() ==> #[trigger] s[i] is Float
            },
        }
    }

    /// Whether the distribution has a density at `v`, by the kind of `v`
    /// alone, and the message of the error where it has none.
    pub open spec fn density_defined(self, v: Val) -> Result<(), Seq<char>> {
        match self {
            Dist::Normal { .. } => if v.is_numeric() {
                Ok(())
            } else {
                Err("Normal distribution can only eval density of a number."@)
            },
            Dist::Discrete { weights } => match v {
                Val::Integer(k) => if 0 <= k < weights.len() {
                    Ok(())
                } else {
                    Err("Discrete distribution can only eval density of one of its indices."@)
                },
                _ => Err("Discrete distribution can only eval density of an integer."@),
            },
            Dist::Gamma { .. } => if v.is_numeric() {
                Ok(())
            } else {
                Err("`gamma` can only evaluate the density of a number."@)
            },
            Dist::Dirichlet { .. } => Err(
                "Evaluating the density of `dirichlet` is not implemented."@,
            ),
        }
    }
}

/// The message of the error that a refused draw gives.
pub open spec fn draw_refused() -> Seq<char> {
    "The distribution's parameters admit no draw."@
}

/// The message of the error that a refused density gives.
pub open spec fn density_refused() -> Seq<char> {
    "The distribution's parameters admit no density."@
}

/// Whether `r` is the error that the log-density of `v` under `d` fails
/// with where no log-density comes: the error of a distribution that has no
/// density at a value of that kind, or else the error of a refused density,
/// which comes only where the numerics refuse.
pub open spec fn density_fails<N: Numerics, T>(
    numerics: &N,
    d: Dist,
    v: Val,
    r: Result<T, RuntimeError>,
) -> bool {
    match d.density_defined(v) {
        Ok(()) => fails_with(r, density_refused()) && is_log_density(numerics, d, v, None),
        Err(message) => fails_with(r, message),
    }
}

/// Copies of the numbers, one for one.
pub fn duplicate_numbers(v: &Vec<Number>) -> (out: Vec<Number>)
    ensures
        out@ == v@,
{
    let mut out: Vec<Number> = Vec::new();
    let mut i: usize = 0;
    while i < v.len()
        invariant
            i <= v.len(),
            out.len() == i,
            forall|k: int| 0 <= k < i ==> out@[k] == v@[k],
        decreases v.len() - i,
    {
        out.push(v[i]);
        i += 1;
    }
    out
}

impl Clone for Discrete {
    /// A copy of the distribution.
    fn clone(&self) -> (r: Discrete)
        ensures
            r.weights@ == self.weights@,
    {
        Discrete { weights: duplicate_numbers(&self.weights) }
    }
}

impl Clone for Dirichlet {
    /// A copy of the distribution.
    fn clone(&self) -> (r: Dirichlet)
        ensures
            r.parameters@ == self.parameters@,
    {
        Dirichlet { parameters: duplicate_numbers(&self.parameters) }
    }
}

impl Clone for Distribution {
    /// A copy of the distribution.
    fn clone(&self) -> (r: Distribution)
        ensures
            r@ == self@,
    {
        match self {
            Distribution::Normal(d) => Distribution::Normal(*d),
            Distribution::Discrete(d) => Distribution::Discrete(d.clone()),
            Distribution::Gamma(d) => Distribution::Gamma(*d),
            Distribution::Dirichlet(d) => Distribution::Dirichlet(d.clone()),
        }
    }
}

impl Distribution {
    /// The name of the distribution's family.
    pub fn name(&self) -> (r: &'static str)
        ensures
            r@ == self@.name(),
    {
        match self {
            Distribution::Normal(_) => "normal",
            Distribution::Discrete(_) => "discrete",
            Distribution::Gamma(_) => "gamma",
            Distribution::Dirichlet(_) => "dirichlet",
        }
    }

    /// A draw from the distribution.
    ///
    /// The numerics make the draw. What they hand back becomes a value only
    /// if the distribution admits it; a refusal, and an answer of the wrong
    /// shape, are errors.
    pub fn sample<N: Numerics>(&self, numerics: &N) -> (r: Result<Value, RuntimeError>)
        ensures
            match r {
                Ok(v) => self@.admits(v@) && is_draw(numerics, self@, Some(v@)),
                Err(_) => fails_with(r, draw_refused()) && is_draw(numerics, self@, None),
            },
    {
        match self {
            Distribution::Normal(d) => {
                let mu = widen(numerics, d.mu);
                let sigma = widen(numerics, d.sigma);
                let answer = numerics.draw_normal(mu, sigma);
                proof {
                    assert(widens_to(numerics, d.mu, mu) && widens_to(numerics, d.sigma, sigma)
                        && draws_normal(numerics, mu, sigma, answer));
                }
                match answer {
                    Some(x) => Ok(Value::Float(x)),
                    None => fail("The distribution's parameters admit no draw."),
                }
            },
            Distribution::Discrete(d) => {
                let weights = widen_all(numerics, &d.weights);
                let answer = numerics.draw_discrete(&weights);
                proof {
                    assert(draws_discrete(numerics, weights, answer));
                }
                match answer {
                    Some(k) => {
                        if k < d.weights.len() && k as u64 <= i64::MAX as u64 {
                            Ok(Value::Integer(k as i64))
                        } else {
                            fail("The distribution's parameters admit no draw.")
                        }
                    },
                    None => fail("The distribution's parameters admit no draw."),
                }
            },
            Distribution::Gamma(d) => {
                let alpha = widen(numerics, d.alpha);
                let beta = widen(numerics, d.beta);
                let answer = numerics.draw_gamma(alpha, beta);
                proof {
                    assert(widens_to(numerics, d.alpha, alpha) && widens_to(numerics, d.beta, beta)
                        && draws_gamma(numerics, alpha, beta, answer));
                }
                match answer {
                    Some(x) => Ok(Value::Float(x)),
                    None => fail("The distribution's parameters admit no draw."),
                }
            },
            Distribution::Dirichlet(d) => {
                let parameters = widen_all(numerics, &d.parameters);
                let answer = numerics.draw_dirichlet(&parameters);
                proof {
                    assert(draws_dirichlet(numerics, parameters, answer));
                }
                match &answer {
                    Some(xs) => {
                        if xs.len() != d.parameters.len() {
                            return fail("The distribution's parameters admit no draw.");
                        }
                        let mut out: Vec<Value> = Vec::new();
                        let mut i: usize = 0;
                        while i < xs.len()
                            invariant
                                i <= xs.len(),
                                out.len() == i,
                                forall|k: int| 0 <= k < i ==> (#[trigger] out@[k])@ == Val::Float(xs@[k]),
                            decreases xs.len() - i,
                        {
                            out.push(Value::Float(xs[i]));
                            i += 1;
                        }
                        proof {
                            crate::types::lemma_vector_view(out);
                            assert(crate::types::views(out@) =~= float_vals(xs@));
                            assert forall|k: int| 0 <= k < out.len() implies #[trigger] float_vals(
                                xs@,
                            )[k] is Float by {}
                        }
                        Ok(Value::Vector(out))
                    },
                    None => fail("The distribution's parameters admit no draw."),
                }
            },
        }
    }

    /// The logarithm of the distribution's density, or probability, at
    /// `val`.
    ///
    /// Fails where the distribution has no density at a value of that kind,
    /// with the message that [`Dist::density_defined`] gives. Where it has
    /// one, the numerics compute it, and their refusal is the one other
    /// error.
    pub fn log_pdf<N: Numerics>(&self, val: &Value, numerics: &N) -> (r: Result<
        Float,
        RuntimeError,
    >)
        ensures
            match self@.density_defined(val@) {
                Ok(()) => match r {
                    Ok(w) => is_log_density(numerics, self@, val@, Some(w)),
                    Err(_) => fails_with(r, density_refused()) && is_log_density(
                        numerics,
                        self@,
                        val@,
                        None,
                    ),
                },
                Err(message) => fails_with(r, message),
            },
    {
        match self {
            Distribution::Normal(d) => {
                let x = match val {
                    Value::Float(f) => *f,
                    Value::Integer(i) => numerics.from_int(*i),
                    _ => {
                        return fail("Normal distribution can only eval density of a number.");
                    },
                };
                let mu = widen(numerics, d.mu);
                let sigma = widen(numerics, d.sigma);
                let answer = numerics.log_density_normal(mu, sigma, x);
                proof {
                    assert(is_log_density_normal(numerics, mu, sigma, x, answer));
                }
                match answer {
                    Some(w) => Ok(w),
                    None => fail("The distribution's parameters admit no density."),
                }
            },
            Distribution::Discrete(d) => {
                let k = match val {
                    Value::Integer(i) => {
                        if *i >= 0 && (*i as u64) < d.weights.len() as u64 {
                            *i as usize
                        } else {
                            return fail(
                                "Discrete distribution can only eval density of one of its indices.",
                            );
                        }
                    },
                    _ => {
                        return fail("Discrete distribution can only eval density of an integer.");
                    },
                };
                let weights = widen_all(numerics, &d.weights);
                let answer = numerics.log_mass_discrete(&weights, k);
                match answer {
                    Some(w) => Ok(w),
                    None => fail("The distribution's parameters admit no density."),
                }
            },
            Distribution::Gamma(d) => {
                let x = match val {
                    Value::Float(f) => *f,
                    Value::Integer(i) => numerics.from_int(*i),
                    _ => {
                        return fail("`gamma` can only evaluate the density of a number.");
                    },
                };
                let alpha = widen(numerics, d.alpha);
                let beta = widen(numerics, d.beta);
                let answer = numerics.log_density_gamma(alpha, beta, x);
                proof {
                    assert(is_log_density_gamma(numerics, alpha, beta, x, answer));
                }
                match answer {
                    Some(w) => Ok(w),
                    None => fail("The distribution's parameters admit no density."),
                }
            },
            Distribution::Dirichlet(_) => fail(
                "Evaluating the density of `dirichlet` is not implemented.",
            ),
        }
    }
}

} // verus!
