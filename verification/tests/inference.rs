use foppl::distributions::Numerics;
use foppl::types::Float;
use probability::distribution::Continuous;
use rand::rngs::StdRng;
use std::cell::RefCell;
use rand::{Rng, SeedableRng};
use rand_distr::Distribution as Draw;

/// Numerics on the machine's doubles, with a seeded random source.
#[allow(dead_code)]
struct Native {
    rng: RefCell<StdRng>,
}

#[allow(dead_code)]
impl Native {
    fn seeded(seed: u64) -> Native {
        Native { rng: RefCell::new(StdRng::seed_from_u64(seed)) }
    }
}

#[allow(dead_code)]
fn fl(x: f64) -> Float {
    Float { bits: x.to_bits() }
}

#[allow(dead_code)]
fn num(x: Float) -> f64 {
    f64::from_bits(x.bits)
}

impl Numerics for Native {
    fn from_int(&self, x: i64) -> Float {
        fl(x as f64)
    }

    fn plus(&self, a: Float, b: Float) -> Float {
        fl(num(a) + num(b))
    }

    fn minus(&self, a: Float, b: Float) -> Float {
        fl(num(a) - num(b))
    }

    fn times(&self, a: Float, b: Float) -> Float {
        fl(num(a) * num(b))
    }

    fn divide(&self, a: Float, b: Float) -> Float {
        fl(num(a) / num(b))
    }

    fn negate(&self, a: Float) -> Float {
        fl(-num(a))
    }

    fn less(&self, a: Float, b: Float) -> bool {
        num(a) < num(b)
    }

    fn less_eq(&self, a: Float, b: Float) -> bool {
        num(a) <= num(b)
    }

    fn equal(&self, a: Float, b: Float) -> bool {
        num(a) == num(b)
    }

    fn ln(&self, a: Float) -> Float {
        fl(num(a).ln())
    }

    fn exp(&self, a: Float) -> Float {
        fl(num(a).exp())
    }

    fn sqrt(&self, a: Float) -> Float {
        fl(num(a).sqrt())
    }

    fn tanh(&self, a: Float) -> Float {
        fl(num(a).tanh())
    }

    fn draw_normal(&self, mu: Float, sigma: Float) -> Option<Float> {
        let d = rand_distr::Normal::new(num(mu), num(sigma)).ok()?;
        Some(fl(d.sample(&mut *self.rng.borrow_mut())))
    }

    fn draw_discrete(&self, weights: &Vec<Float>) -> Option<usize> {
        let ws: Vec<f64> = weights.iter().map(|w| num(*w)).collect();
        let d = rand_distr::WeightedIndex::new(&ws).ok()?;
        Some(d.sample(&mut *self.rng.borrow_mut()))
    }

    fn draw_gamma(&self, alpha: Float, beta: Float) -> Option<Float> {
        let d = rand_distr::Gamma::new(num(alpha), num(beta)).ok()?;
        Some(fl(d.sample(&mut *self.rng.borrow_mut())))
    }

    fn draw_dirichlet(&self, parameters: &Vec<Float>) -> Option<Vec<Float>> {
        let ps: Vec<f64> = parameters.iter().map(|p| num(*p)).collect();
        let d = rand_distr::Dirichlet::new(&ps).ok()?;
        Some(d.sample(&mut *self.rng.borrow_mut()).into_iter().map(fl).collect())
    }

    fn draw_uniform(&self) -> Float {
        fl(self.rng.borrow_mut().gen::<f64>())
    }

    fn log_density_normal(&self, mu: Float, sigma: Float, x: Float) -> Option<Float> {
        let (mu, sigma, x) = (num(mu), num(sigma), num(x));
        if !(sigma > 0.0) {
            return None;
        }
        let z = (x - mu) / sigma;
        Some(fl(-(sigma * std::f64::consts::TAU.sqrt()).ln() - 0.5 * z * z))
    }

    fn log_mass_discrete(&self, weights: &Vec<Float>, index: usize) -> Option<Float> {
        let ws: Vec<f64> = weights.iter().map(|w| num(*w)).collect();
        let total: f64 = ws.iter().sum();
        if !(total > 0.0) || index >= ws.len() {
            return None;
        }
        Some(fl((ws[index] / total).ln()))
    }

    fn log_density_gamma(&self, alpha: Float, beta: Float, x: Float) -> Option<Float> {
        let (alpha, beta, x) = (num(alpha), num(beta), num(x));
        if !(alpha > 0.0 && beta > 0.0) {
            return None;
        }
        let d = probability::distribution::Gamma::new(alpha, beta);
        Some(fl(d.density(x).ln()))
    }
}
use foppl::ast::{Definition, Expression, ForEach, Ident, Let, Loop, Program};

#[allow(dead_code)]
fn ident(name: &str) -> Ident {
    Ident(name.to_string())
}

#[allow(dead_code)]
fn var(name: &str) -> Expression {
    Expression::Variable(ident(name))
}

#[allow(dead_code)]
fn lit(i: i64) -> Expression {
    Expression::Integer(i)
}

#[allow(dead_code)]
fn flit(x: f64) -> Expression {
    Expression::Float(fl(x))
}

#[allow(dead_code)]
fn apply(name: &str, args: Vec<Expression>) -> Expression {
    Expression::FunctionApplication(ident(name), args)
}

#[allow(dead_code)]
fn vector_of(items: Vec<Expression>) -> Expression {
    Expression::Vector(items)
}

#[allow(dead_code)]
fn let_in(bindings: Vec<(&str, Expression)>, body: Vec<Expression>) -> Expression {
    Expression::Let(Let {
        bindings: bindings.into_iter().map(|(n, e)| (ident(n), e)).collect(),
        body,
    })
}

#[allow(dead_code)]
fn foreach(n_iters: usize, bindings: Vec<(&str, Expression)>, body: Vec<Expression>) -> Expression {
    Expression::ForEach(ForEach {
        n_iters,
        bindings: bindings.into_iter().map(|(n, e)| (ident(n), e)).collect(),
        body,
    })
}

#[allow(dead_code)]
fn repeat(n_iters: usize, accumulator: Expression, fn_name: &str, params: Vec<Expression>) -> Expression {
    Expression::Loop(Loop {
        n_iters,
        accumulator: Box::new(accumulator),
        fn_name: ident(fn_name),
        params,
    })
}

#[allow(dead_code)]
fn sample(dist: Expression) -> Expression {
    Expression::Sample(Box::new(dist), None)
}

#[allow(dead_code)]
fn sample_at(dist: Expression, address: usize) -> Expression {
    Expression::Sample(Box::new(dist), Some(address))
}

#[allow(dead_code)]
fn observe(dist: Expression, val: Expression) -> Expression {
    Expression::Observe(Box::new(dist), Box::new(val), None)
}

#[allow(dead_code)]
fn observe_at(dist: Expression, val: Expression, address: usize) -> Expression {
    Expression::Observe(Box::new(dist), Box::new(val), Some(address))
}

#[allow(dead_code)]
fn when(test: Expression, yes: Expression, no: Expression) -> Expression {
    Expression::If(Box::new(test), Box::new(yes), Box::new(no))
}

#[allow(dead_code)]
fn define(name: &str, params: &[&str], body: Expression) -> Definition {
    Definition { ident: ident(name), params: params.iter().map(|p| ident(p)).collect(), body }
}

#[allow(dead_code)]
fn program(definitions: Vec<Definition>, expression: Expression) -> Program {
    Program { definitions, expression }
}

#[allow(dead_code)]
fn normal_of(mu: Expression, sigma: Expression) -> Expression {
    apply("normal", vec![mu, sigma])
}
use foppl::dataset::{flatten_to_numeric_vec_only, DataFile, ProgramResult, ResultValue};
use foppl::distributions::{Dirichlet, Discrete, Distribution, Gamma, Normal};
use foppl::inference::likelihood_weighting::LikelihoodWeighting;
use foppl::inference::prior_only::PriorOnly;
use foppl::inference::single_site_metropolis::{RunMemory, SingleSiteMetropolis};
use foppl::inference::trace::{Trace, TraceEntry};
use foppl::inference::InferenceAlg;
use foppl::interpreter::Interpreter;
use foppl::types::{Number, RuntimeError, Value, ValueImpls, ValueType};

fn std_normal() -> Distribution {
    Distribution::Normal(Normal { mu: Number::Integer(0), sigma: Number::Integer(1) })
}

fn normal_around(mu: f64, sigma: f64) -> Distribution {
    Distribution::Normal(Normal { mu: Number::Float(fl(mu)), sigma: Number::Float(fl(sigma)) })
}

fn as_float(v: &Value) -> f64 {
    match v {
        Value::Float(x) => num(*x),
        other => panic!("expected a float, got {:?}", other),
    }
}

fn log_normal_density(mu: f64, sigma: f64, x: f64) -> f64 {
    let z = (x - mu) / sigma;
    -(sigma * std::f64::consts::TAU.sqrt()).ln() - 0.5 * z * z
}

fn gaussian_program() -> Program {
    program(
        vec![],
        let_in(
            vec![("m", sample(normal_of(lit(0), lit(10))))],
            vec![observe(normal_of(var("m"), lit(1)), lit(5)), var("m")],
        ),
    )
}

#[test]
fn distributions_have_names() {
    assert_eq!(std_normal().name(), "normal");
    assert_eq!(Distribution::Discrete(Discrete { weights: vec![Number::Integer(1)] }).name(), "discrete");
    assert_eq!(
        Distribution::Gamma(Gamma { alpha: Number::Integer(1), beta: Number::Integer(1) }).name(),
        "gamma"
    );
    assert_eq!(
        Distribution::Dirichlet(Dirichlet { parameters: vec![Number::Integer(1)] }).name(),
        "dirichlet"
    );
}

#[test]
fn distributions_draw_values_of_their_shape() {
    let n = Native::seeded(11);
    assert!(as_float(&std_normal().sample(&n).unwrap()).is_finite());
    let d = Distribution::Discrete(Discrete {
        weights: vec![Number::Integer(0), Number::Float(fl(2.5)), Number::Integer(0)],
    });
    for _ in 0..50 {
        assert_eq!(d.sample(&n).unwrap(), Value::Integer(1));
    }
    let g = Distribution::Gamma(Gamma { alpha: Number::Integer(2), beta: Number::Float(fl(0.5)) });
    assert!(as_float(&g.sample(&n).unwrap()) > 0.0);
    let dir = Distribution::Dirichlet(Dirichlet {
        parameters: vec![Number::Integer(1), Number::Integer(2), Number::Float(fl(3.0))],
    });
    match dir.sample(&n).unwrap() {
        Value::Vector(items) => {
            assert_eq!(items.len(), 3);
            let total: f64 = items.iter().map(as_float).sum();
            assert!((total - 1.0).abs() < 1e-9);
        }
        other => panic!("expected a vector, got {:?}", other),
    }
}

#[test]
fn refused_draws_are_errors() {
    let n = Native::seeded(11);
    let refused = "The distribution's parameters admit no draw.";
    let bad = Distribution::Normal(Normal { mu: Number::Integer(0), sigma: Number::Float(fl(f64::NAN)) });
    assert_eq!(bad.sample(&n).unwrap_err().message, refused);
    let zero = Distribution::Discrete(Discrete { weights: vec![Number::Integer(0), Number::Integer(0)] });
    assert_eq!(zero.sample(&n).unwrap_err().message, refused);
    let g = Distribution::Gamma(Gamma { alpha: Number::Integer(-1), beta: Number::Integer(1) });
    assert_eq!(g.sample(&n).unwrap_err().message, refused);
    let short = Distribution::Dirichlet(Dirichlet { parameters: vec![Number::Integer(1)] });
    assert_eq!(short.sample(&n).unwrap_err().message, refused);
}

#[test]
fn log_densities() {
    let n = Native::seeded(11);
    let d = normal_around(1.0, 2.0);
    let w = d.log_pdf(&Value::Float(fl(0.5)), &n).unwrap();
    assert!((num(w) - log_normal_density(1.0, 2.0, 0.5)).abs() < 1e-12);
    let w = std_normal().log_pdf(&Value::Integer(0), &n).unwrap();
    assert!((num(w) - (-0.9189385332046727)).abs() < 1e-12);
    let c = Distribution::Discrete(Discrete {
        weights: vec![Number::Integer(1), Number::Integer(3)],
    });
    assert!((num(c.log_pdf(&Value::Integer(1), &n).unwrap()) - 0.75f64.ln()).abs() < 1e-12);
    let g = Distribution::Gamma(Gamma { alpha: Number::Integer(1), beta: Number::Integer(1) });
    assert!((num(g.log_pdf(&Value::Float(fl(2.0)), &n).unwrap()) - (-2.0)).abs() < 1e-9);
}

#[test]
fn log_density_errors() {
    let n = Native::seeded(11);
    assert_eq!(
        std_normal().log_pdf(&Value::Boolean(true), &n).unwrap_err().message,
        "Normal distribution can only eval density of a number."
    );
    let c = Distribution::Discrete(Discrete { weights: vec![Number::Integer(1), Number::Integer(3)] });
    assert_eq!(
        c.log_pdf(&Value::Float(fl(1.0)), &n).unwrap_err().message,
        "Discrete distribution can only eval density of an integer."
    );
    assert_eq!(
        c.log_pdf(&Value::Integer(2), &n).unwrap_err().message,
        "Discrete distribution can only eval density of one of its indices."
    );
    assert_eq!(
        c.log_pdf(&Value::Integer(-1), &n).unwrap_err().message,
        "Discrete distribution can only eval density of one of its indices."
    );
    let g = Distribution::Gamma(Gamma { alpha: Number::Integer(1), beta: Number::Integer(1) });
    assert_eq!(
        g.log_pdf(&Value::Null, &n).unwrap_err().message,
        "`gamma` can only evaluate the density of a number."
    );
    let dir = Distribution::Dirichlet(Dirichlet { parameters: vec![Number::Integer(1), Number::Integer(1)] });
    assert_eq!(
        dir.log_pdf(&Value::Vector(vec![]), &n).unwrap_err().message,
        "Evaluating the density of `dirichlet` is not implemented."
    );
    let bad = normal_around(0.0, -1.0);
    assert_eq!(
        bad.log_pdf(&Value::Integer(0), &n).unwrap_err().message,
        "The distribution's parameters admit no density."
    );
}

#[test]
fn prior_only_records_every_run() {
    let n = Native::seeded(2);
    let mut alg = PriorOnly::new();
    let drawn = alg.sample(&n, &std_normal(), None).unwrap();
    assert!(as_float(&drawn).is_finite());
    assert_eq!(alg.results.len(), 0);
    alg.finish_one_evaluation(&n, Value::Integer(1));
    alg.finish_one_evaluation(&n, Value::Vector(vec![Value::Float(fl(0.5)), Value::Boolean(true)]));
    assert_eq!(alg.results.len(), 2);
    let file = alg.finalize_and_make_dataset().unwrap();
    assert_eq!(
        file,
        DataFile {
            has_weights: false,
            data: vec![
                ProgramResult::One(ResultValue::Int(1)),
                ProgramResult::Many(vec![
                    ProgramResult::One(ResultValue::Float(fl(0.5))),
                    ProgramResult::One(ResultValue::Boolean(true)),
                ]),
            ],
        }
    );
}

#[test]
fn prior_only_observe_draws_instead_of_returning_the_observation() {
    let n = Native::seeded(2);
    let mut alg = PriorOnly::new();
    let concentrated = Distribution::Discrete(Discrete {
        weights: vec![Number::Integer(0), Number::Integer(1)],
    });
    for _ in 0..20 {
        let seen = alg.observe(&n, &concentrated, Value::Integer(0), Some(0)).unwrap();
        assert_eq!(seen, Value::Integer(1));
    }
    assert_eq!(alg.results.len(), 0);
}

#[test]
fn prior_only_refuses_what_cannot_be_serialized() {
    let n = Native::seeded(2);
    let mut alg = PriorOnly::new();
    alg.finish_one_evaluation(&n, Value::Integer(1));
    alg.finish_one_evaluation(&n, Value::Null);
    assert_eq!(
        alg.finalize_and_make_dataset().unwrap_err().message,
        "Program should only return numbers, booleans or vectors of them."
    );
    let mut alg = PriorOnly::new();
    alg.finish_one_evaluation(&n, Value::Vector(vec![Value::Distribution(std_normal())]));
    assert!(alg.finalize_and_make_dataset().is_err());
}

#[test]
fn flatten_keeps_the_nesting() {
    let vals = vec![
        Value::Integer(-3),
        Value::Vector(vec![Value::Vector(vec![]), Value::Float(fl(1.5))]),
        Value::Boolean(false),
    ];
    assert_eq!(
        flatten_to_numeric_vec_only(&vals).unwrap(),
        vec![
            ProgramResult::One(ResultValue::Int(-3)),
            ProgramResult::Many(vec![
                ProgramResult::Many(vec![]),
                ProgramResult::One(ResultValue::Float(fl(1.5))),
            ]),
            ProgramResult::One(ResultValue::Boolean(false)),
        ]
    );
    assert_eq!(flatten_to_numeric_vec_only(&vec![]).unwrap(), vec![]);
}

#[test]
fn likelihood_weighting_sums_the_log_densities() {
    let n = Native::seeded(3);
    let mut alg = LikelihoodWeighting::new();
    assert_eq!(num(alg.log_w), 0.0);
    let seen = alg.observe(&n, &std_normal(), Value::Float(fl(0.5)), Some(0)).unwrap();
    assert_eq!(seen, Value::Float(fl(0.5)));
    let first = log_normal_density(0.0, 1.0, 0.5);
    assert_eq!(num(alg.log_w), 0.0 + first);
    alg.observe(&n, &normal_around(1.0, 2.0), Value::Integer(3), None).unwrap();
    let second = log_normal_density(1.0, 2.0, 3.0);
    assert_eq!(num(alg.log_w), (0.0 + first) + second);
    alg.sample(&n, &std_normal(), None).unwrap();
    assert_eq!(num(alg.log_w), (0.0 + first) + second);
    alg.finish_one_evaluation(&n, Value::Integer(7));
    assert_eq!(num(alg.log_w), 0.0);
    assert_eq!(alg.results, vec![Value::Integer(7)]);
    assert_eq!(alg.weights.iter().map(|w| num(*w)).collect::<Vec<f64>>(), vec![(0.0 + first) + second]);
    alg.observe(&n, &std_normal(), Value::Float(fl(0.5)), None).unwrap();
    assert_eq!(num(alg.log_w), 0.0 + first);
}

#[test]
fn likelihood_weighting_errors_change_nothing() {
    let n = Native::seeded(3);
    let mut alg = LikelihoodWeighting::new();
    alg.observe(&n, &std_normal(), Value::Float(fl(0.5)), None).unwrap();
    let before = num(alg.log_w);
    let e = alg.observe(&n, &std_normal(), Value::Null, None).unwrap_err();
    assert_eq!(e.message, "Normal distribution can only eval density of a number.");
    assert_eq!(num(alg.log_w), before);
}

#[test]
fn likelihood_weighting_pairs_results_with_weights() {
    let n = Native::seeded(3);
    let mut alg = LikelihoodWeighting::new();
    alg.observe(&n, &std_normal(), Value::Integer(0), None).unwrap();
    let w = alg.log_w;
    alg.finish_one_evaluation(&n, Value::Integer(1));
    alg.finish_one_evaluation(&n, Value::Vector(vec![Value::Integer(2)]));
    alg.finish_one_evaluation(&n, Value::Boolean(true));
    let file = alg.finalize_and_make_dataset().unwrap();
    assert_eq!(
        file,
        DataFile {
            has_weights: true,
            data: vec![
                ProgramResult::Many(vec![
                    ProgramResult::One(ResultValue::Int(1)),
                    ProgramResult::One(ResultValue::Float(w)),
                ]),
                ProgramResult::Many(vec![
                    ProgramResult::Many(vec![ProgramResult::One(ResultValue::Int(2))]),
                    ProgramResult::One(ResultValue::Float(fl(0.0))),
                ]),
                ProgramResult::Many(vec![
                    ProgramResult::One(ResultValue::Boolean(true)),
                    ProgramResult::One(ResultValue::Float(fl(0.0))),
                ]),
            ],
        }
    );
    let mut bad = LikelihoodWeighting::new();
    bad.finish_one_evaluation(&n, Value::Null);
    assert!(bad.finalize_and_make_dataset().is_err());
}

#[test]
fn trace_finds_entries_by_address() {
    let mut t = Trace::new();
    assert_eq!(t.len(), 0);
    assert!(t.get((0, 0)).is_none());
    t.insert((5, 0), Value::Integer(10), fl(-1.0));
    t.insert((3, 2), Value::Integer(20), fl(-2.0));
    t.insert((5, 3), Value::Integer(30), fl(-3.0));
    t.insert((9, 7), Value::Integer(40), fl(-4.0));
    assert_eq!(t.len(), 4);
    assert_eq!(t.key_at(1), (3, 2));
    for (key, value, weight) in [((5, 0), 10, -1.0), ((3, 2), 20, -2.0), ((5, 3), 30, -3.0), ((9, 7), 40, -4.0)] {
        let entry = t.get(key).unwrap();
        assert_eq!(entry, &TraceEntry { address: key, value: Value::Integer(value), log_weight: fl(weight) });
    }
    assert!(t.get((5, 2)).is_none());
    assert!(t.get((3, 0)).is_none());
    assert!(t.get((5, 1)).is_none());
    assert!(t.get((9, 8)).is_none());
    assert!(t.get((0, 4)).is_none());
}

#[test]
fn trace_is_a_map() {
    let mut t = Trace::new();
    t.insert((1, 5), Value::Integer(50), fl(0.5));
    t.insert((1, 2), Value::Integer(20), fl(0.2));
    t.insert((0, 5), Value::Integer(5), fl(0.05));
    t.insert((2, 9), Value::Integer(90), fl(0.9));
    t.insert((7, 0), Value::Integer(0), fl(0.0));
    let keys: Vec<(usize, usize)> = t.entries.iter().map(|e| e.address).collect();
    assert_eq!(keys, vec![(7, 0), (1, 2), (0, 5), (1, 5), (2, 9)]);
    t.insert((1, 5), Value::Boolean(true), fl(-1.0));
    t.insert((7, 0), Value::Null, fl(-2.0));
    assert_eq!(t.len(), 5);
    assert_eq!(t.get((1, 5)).unwrap().value, Value::Boolean(true));
    assert_eq!(t.get((1, 5)).unwrap().log_weight, fl(-1.0));
    assert_eq!(t.get((7, 0)).unwrap().value, Value::Null);
    assert_eq!(t.get((0, 5)).unwrap().value, Value::Integer(5));
    assert_eq!(t.get((1, 2)).unwrap().value, Value::Integer(20));
    assert_eq!(t.get((2, 9)).unwrap().value, Value::Integer(90));
    assert!(t.get((2, 5)).is_none());
    assert!(t.get((0, 0)).is_none());
    assert!(t.get((3, 9)).is_none());
    let keys: Vec<(usize, usize)> = t.entries.iter().map(|e| e.address).collect();
    assert_eq!(keys, vec![(7, 0), (1, 2), (0, 5), (1, 5), (2, 9)]);
}

#[test]
fn metropolis_starts_fresh() {
    let alg = SingleSiteMetropolis::new(20);
    assert_eq!(alg.skip, 20);
    assert_eq!(alg.count, 0);
    assert!(alg.last.is_none());
    assert_eq!(alg.proposal, RunMemory::new());
    assert_eq!(alg.proposal.trace.len(), 0);
    assert_eq!(alg.var_counter, 0);
    assert_eq!(alg.proposal_site, (0, 0));
    assert!(!alg.reached_proposal_site);
    assert_eq!(alg.samples.len(), 0);
}

#[test]
fn metropolis_counts_sample_and_observe_calls() {
    let n = Native::seeded(4);
    let mut alg = SingleSiteMetropolis::new(1);
    alg.sample(&n, &std_normal(), Some(7)).unwrap();
    assert_eq!(alg.var_counter, 1);
    alg.observe(&n, &std_normal(), Value::Integer(0), Some(8)).unwrap();
    assert_eq!(alg.var_counter, 2);
    alg.sample(&n, &std_normal(), Some(7)).unwrap();
    assert_eq!(alg.var_counter, 3);
    let keys: Vec<(usize, usize)> = alg.proposal.trace.entries.iter().map(|e| e.address).collect();
    assert_eq!(keys, vec![(7, 0), (7, 2)]);
    alg.finish_one_evaluation(&n, Value::Integer(0));
    assert_eq!(alg.var_counter, 0);
    assert_eq!(alg.proposal.trace.len(), 0);
    assert!(!alg.reached_proposal_site);
}

#[test]
fn metropolis_first_run_is_accepted() {
    for seed in 0..20 {
        let n = Native::seeded(seed);
        let mut alg = SingleSiteMetropolis::new(1);
        let drawn = alg.sample(&n, &std_normal(), Some(0)).unwrap();
        alg.observe(&n, &normal_around(100.0, 0.001), Value::Integer(0), Some(1)).unwrap();
        assert!(alg.decide(&n));
        alg.finish_one_evaluation(&n, drawn.clone());
        let last = alg.last.as_ref().unwrap();
        assert_eq!(last.trace.entries.len(), 1);
        assert_eq!(last.trace.entries[0].value, drawn);
        assert_eq!(alg.samples, vec![drawn]);
        assert_eq!(alg.proposal_site, (0, 0));
    }
}

#[test]
fn metropolis_records_the_log_density_of_what_it_draws() {
    let n = Native::seeded(4);
    let mut alg = SingleSiteMetropolis::new(1);
    let d = normal_around(1.0, 3.0);
    let drawn = alg.sample(&n, &d, Some(2)).unwrap();
    let entry = &alg.proposal.trace.entries[0];
    assert_eq!(entry.address, (2, 0));
    assert_eq!(entry.value, drawn);
    assert_eq!(num(entry.log_weight), log_normal_density(1.0, 3.0, as_float(&drawn)));
    assert_eq!(num(alg.proposal.reused_log_weight), 0.0);
    alg.observe(&n, &std_normal(), Value::Float(fl(0.25)), None).unwrap();
    assert_eq!(num(alg.proposal.observed_log_weight), 0.0 + log_normal_density(0.0, 1.0, 0.25));
}

#[test]
fn metropolis_reuses_what_is_not_the_proposal_site() {
    let n = Native::seeded(4);
    let mut alg = SingleSiteMetropolis::new(1);
    let a = alg.sample(&n, &std_normal(), Some(0)).unwrap();
    let b = alg.sample(&n, &std_normal(), Some(1)).unwrap();
    let c = alg.sample(&n, &std_normal(), Some(2)).unwrap();
    alg.conclude(true, 1, Value::Integer(0));
    assert_eq!(alg.proposal_site, (1, 1));
    let stored: Vec<f64> = alg.last.as_ref().unwrap().trace.entries.iter().map(|e| num(e.log_weight)).collect();

    let wide = normal_around(0.0, 2.0);
    let a2 = alg.sample(&n, &wide, Some(0)).unwrap();
    assert_eq!(a2, a);
    assert!(!alg.reached_proposal_site);
    assert_eq!(num(alg.proposal.trace.entries[0].log_weight), stored[0]);
    assert_eq!(num(alg.proposal.reused_log_weight), 0.0 + stored[0]);

    let b2 = alg.sample(&n, &wide, Some(1)).unwrap();
    assert_ne!(b2, b);
    assert!(alg.reached_proposal_site);
    assert_eq!(num(alg.proposal.trace.entries[1].log_weight), log_normal_density(0.0, 2.0, as_float(&b2)));
    assert_eq!(num(alg.proposal.reused_log_weight), 0.0 + stored[0]);

    let c2 = alg.sample(&n, &wide, Some(2)).unwrap();
    assert_eq!(c2, c);
    let rescored = log_normal_density(0.0, 2.0, as_float(&c));
    assert_eq!(num(alg.proposal.trace.entries[2].log_weight), rescored);
    assert_eq!(num(alg.proposal.reused_log_weight), (0.0 + stored[0]) + rescored);

    let fresh = alg.sample(&n, &std_normal(), Some(3)).unwrap();
    assert_eq!(alg.proposal.trace.entries[3].address, (3, 3));
    assert_eq!(alg.proposal.trace.entries[3].value, fresh);
    assert_eq!(num(alg.proposal.reused_log_weight), (0.0 + stored[0]) + rescored);
    assert_eq!(alg.var_counter, 4);
}

#[test]
fn metropolis_runs_with_one_control_flow_have_the_same_keys() {
    let n = Native::seeded(9);
    let mut alg = SingleSiteMetropolis::new(1);
    let mut keys_of_runs: Vec<Vec<(usize, usize)>> = Vec::new();
    for _ in 0..6 {
        alg.sample(&n, &std_normal(), Some(4)).unwrap();
        alg.observe(&n, &std_normal(), Value::Integer(0), Some(5)).unwrap();
        alg.sample(&n, &std_normal(), Some(6)).unwrap();
        alg.sample(&n, &std_normal(), Some(4)).unwrap();
        keys_of_runs.push(alg.proposal.trace.entries.iter().map(|e| e.address).collect());
        alg.finish_one_evaluation(&n, Value::Integer(0));
        let last: Vec<(usize, usize)> =
            alg.last.as_ref().unwrap().trace.entries.iter().map(|e| e.address).collect();
        assert_eq!(last, vec![(4, 0), (6, 2), (4, 3)]);
        assert!(last.contains(&alg.proposal_site));
    }
    for keys in keys_of_runs {
        assert_eq!(keys, vec![(4, 0), (6, 2), (4, 3)]);
    }
}

#[test]
fn metropolis_conclude_applies_the_decisions() {
    let n = Native::seeded(4);
    let mut alg = SingleSiteMetropolis::new(3);
    alg.sample(&n, &std_normal(), Some(0)).unwrap();
    alg.sample(&n, &std_normal(), Some(1)).unwrap();
    alg.conclude(true, 0, Value::Integer(1));
    assert_eq!((alg.count, alg.samples.len()), (1, 0));
    assert_eq!(alg.proposal_site, (0, 0));
    let accepted: Vec<(usize, usize)> =
        alg.last.as_ref().unwrap().trace.entries.iter().map(|e| e.address).collect();
    assert_eq!(accepted, vec![(0, 0), (1, 1)]);

    alg.sample(&n, &std_normal(), Some(5)).unwrap();
    alg.conclude(false, 1, Value::Integer(2));
    assert_eq!((alg.count, alg.samples.len()), (1, 0));
    assert_eq!(alg.proposal_site, (1, 1));
    let kept: Vec<(usize, usize)> =
        alg.last.as_ref().unwrap().trace.entries.iter().map(|e| e.address).collect();
    assert_eq!(kept, vec![(0, 0), (1, 1)]);
    assert_eq!(alg.proposal, RunMemory::new());
    assert_eq!(alg.var_counter, 0);

    alg.conclude(true, 9, Value::Integer(3));
    assert_eq!((alg.count, alg.samples.len()), (2, 0));
    assert_eq!(alg.last.as_ref().unwrap().trace.entries.len(), 0);
    assert_eq!(alg.proposal_site, (1, 1));

    alg.conclude(true, 0, Value::Integer(4));
    assert_eq!(alg.count, 0);
    assert_eq!(alg.samples, vec![Value::Integer(4)]);
}

#[test]
fn drivers_count_the_runs_that_ended() {
    let mut i = Interpreter::new(SingleSiteMetropolis::new(3), Native::seeded(1));
    i.eval_program(gaussian_program(), 50).unwrap();
    assert_eq!(i.inference_alg.runs, 50);
    i.eval_program(gaussian_program(), 7).unwrap();
    assert_eq!(i.inference_alg.runs, 57);
    let recorded = i.inference_alg.samples.len();
    assert!(recorded >= 1 && recorded <= 19, "{}", recorded);
    let mut p = Interpreter::new(PriorOnly::new(), Native::seeded(1));
    p.eval_program(gaussian_program(), 9).unwrap();
    assert_eq!(p.inference_alg.results.len(), 9);
    let mut l = Interpreter::new(LikelihoodWeighting::new(), Native::seeded(1));
    l.eval_program(gaussian_program(), 9).unwrap();
    assert_eq!((l.inference_alg.results.len(), l.inference_alg.weights.len()), (9, 9));
}

#[test]
fn metropolis_thins_by_skip() {
    let n = Native::seeded(4);
    let mut alg = SingleSiteMetropolis::new(2);
    for k in 0..6 {
        alg.conclude(true, 0, Value::Integer(k));
    }
    assert_eq!(alg.samples, vec![Value::Integer(1), Value::Integer(3), Value::Integer(5)]);
    let mut every = SingleSiteMetropolis::new(0);
    every.conclude(true, 0, Value::Integer(1));
    every.conclude(true, 0, Value::Integer(2));
    assert_eq!(every.samples, vec![Value::Integer(1), Value::Integer(2)]);
    let file = every.finalize_and_make_dataset().unwrap();
    assert_eq!(
        file,
        DataFile {
            has_weights: false,
            data: vec![ProgramResult::One(ResultValue::Int(1)), ProgramResult::One(ResultValue::Int(2))],
        }
    );
    let _ = n;
}

#[test]
fn metropolis_accepts_by_the_ratio() {
    let n = Native::seeded(4);
    let mut alg = SingleSiteMetropolis::new(1);
    alg.sample(&n, &std_normal(), Some(0)).unwrap();
    alg.observe(&n, &std_normal(), Value::Float(fl(3.0)), None).unwrap();
    alg.conclude(true, 0, Value::Integer(0));
    alg.sample(&n, &std_normal(), Some(0)).unwrap();
    alg.observe(&n, &std_normal(), Value::Float(fl(0.0)), None).unwrap();
    for _ in 0..50 {
        assert!(alg.decide(&n));
    }
    alg.conclude(true, 0, Value::Integer(0));
    alg.sample(&n, &std_normal(), Some(0)).unwrap();
    alg.observe(&n, &std_normal(), Value::Float(fl(40.0)), None).unwrap();
    for _ in 0..50 {
        assert!(!alg.decide(&n));
    }
    let mut accepted = 0;
    alg.conclude(false, 0, Value::Integer(0));
    alg.sample(&n, &std_normal(), Some(0)).unwrap();
    alg.observe(&n, &std_normal(), Value::Float(fl((2.0 * 2.0f64.ln()).sqrt())), None).unwrap();
    for _ in 0..4000 {
        if alg.decide(&n) {
            accepted += 1;
        }
    }
    assert!((accepted as f64 / 4000.0 - 0.5).abs() < 0.05, "{}", accepted);
}

#[test]
fn metropolis_fails_only_where_something_is_refused() {
    let n = Native::seeded(9);
    let mut alg = SingleSiteMetropolis::new(1);
    let no_draw = normal_around(0.0, f64::NAN);
    let no_density = normal_around(1.0, 0.0);
    assert_eq!(
        alg.sample(&n, &no_draw, Some(0)).unwrap_err().message,
        "The distribution's parameters admit no draw."
    );
    assert_eq!(
        alg.sample(&n, &no_density, Some(0)).unwrap_err().message,
        "The distribution's parameters admit no density."
    );
    assert_eq!(
        alg.observe(&n, &no_density, Value::Float(fl(1.0)), None).unwrap_err().message,
        "The distribution's parameters admit no density."
    );
    assert_eq!(alg.var_counter, 0);
    assert_eq!(alg.proposal.trace.len(), 0);
    assert_eq!(num(alg.proposal.observed_log_weight), 0.0);

    let a = alg.sample(&n, &std_normal(), Some(0)).unwrap();
    let seen = alg.observe(&n, &std_normal(), Value::Float(fl(0.5)), Some(1)).unwrap();
    assert_eq!(seen, Value::Float(fl(0.5)));
    assert_eq!(num(alg.proposal.observed_log_weight), 0.0 + log_normal_density(0.0, 1.0, 0.5));
    let b = alg.sample(&n, &std_normal(), Some(2)).unwrap();
    alg.conclude(true, 0, Value::Integer(0));
    assert_eq!(alg.proposal_site, (0, 0));

    let a2 = alg.sample(&n, &std_normal(), Some(0)).unwrap();
    assert_ne!(a2, a);
    assert!(alg.reached_proposal_site);
    assert_eq!(num(alg.proposal.reused_log_weight), 0.0);
    alg.observe(&n, &std_normal(), Value::Float(fl(0.5)), Some(1)).unwrap();

    let choice = Distribution::Discrete(Discrete { weights: vec![Number::Integer(1), Number::Integer(1)] });
    assert_eq!(
        alg.sample(&n, &choice, Some(2)).unwrap_err().message,
        "Discrete distribution can only eval density of an integer."
    );
    assert_eq!(
        alg.sample(&n, &no_density, Some(2)).unwrap_err().message,
        "The distribution's parameters admit no density."
    );
    assert_eq!(alg.var_counter, 2);
    let wide = normal_around(0.0, 2.0);
    let b2 = alg.sample(&n, &wide, Some(2)).unwrap();
    assert_eq!(b2, b);
    let rescored = log_normal_density(0.0, 2.0, as_float(&b));
    assert_eq!(num(alg.proposal.trace.entries[1].log_weight), rescored);
    assert_eq!(num(alg.proposal.reused_log_weight), 0.0 + rescored);
}

#[test]
fn metropolis_errors_change_nothing() {
    let n = Native::seeded(4);
    let mut alg = SingleSiteMetropolis::new(1);
    alg.sample(&n, &std_normal(), Some(0)).unwrap();
    let before_counter = alg.var_counter;
    assert_eq!(
        alg.sample(&n, &std_normal(), None).unwrap_err().message,
        "`sample` has no address: the address pass has not run."
    );
    assert_eq!(
        alg.observe(&n, &std_normal(), Value::Null, None).unwrap_err().message,
        "Normal distribution can only eval density of a number."
    );
    let bad = Distribution::Normal(Normal { mu: Number::Integer(0), sigma: Number::Float(fl(f64::NAN)) });
    assert!(alg.sample(&n, &bad, Some(1)).is_err());
    assert_eq!(alg.var_counter, before_counter);
    assert_eq!(alg.proposal.trace.len(), 1);
    alg.var_counter = usize::MAX;
    assert_eq!(
        alg.sample(&n, &std_normal(), Some(0)).unwrap_err().message,
        "The run has made too many random choices to count."
    );
    assert_eq!(
        alg.observe(&n, &std_normal(), Value::Integer(0), None).unwrap_err().message,
        "The run has made too many random choices to count."
    );
}

#[test]
fn prior_only_normal_has_mean_zero_and_variance_one() {
    let mut i = Interpreter::new(PriorOnly::new(), Native::seeded(2024));
    i.eval_program(program(vec![], sample(normal_of(lit(0), lit(1)))), 10_000).unwrap();
    let xs: Vec<f64> = i.inference_alg.results.iter().map(as_float).collect();
    assert_eq!(xs.len(), 10_000);
    let mean = xs.iter().sum::<f64>() / xs.len() as f64;
    let variance = xs.iter().map(|x| (x - mean) * (x - mean)).sum::<f64>() / xs.len() as f64;
    assert!(mean.abs() < 0.1, "{}", mean);
    assert!((variance - 1.0).abs() < 0.2, "{}", variance);
    let file = i.inference_alg.finalize_and_make_dataset().unwrap();
    assert!(!file.has_weights);
    assert_eq!(file.data.len(), 10_000);
}

#[test]
fn likelihood_weighting_for_a_normal_observation() {
    let mut i = Interpreter::new(LikelihoodWeighting::new(), Native::seeded(2024));
    i.eval_program(gaussian_program(), 10_000).unwrap();
    let alg = &i.inference_alg;
    assert_eq!(alg.results.len(), 10_000);
    assert_eq!(alg.weights.len(), 10_000);
    let top = alg.weights.iter().map(|w| num(*w)).fold(f64::NEG_INFINITY, f64::max);
    let mut total = 0.0;
    let mut weighted = 0.0;
    for (m, w) in alg.results.iter().zip(alg.weights.iter()) {
        let weight = (num(*w) - top).exp();
        total += weight;
        weighted += weight * as_float(m);
    }
    let mean = weighted / total;
    assert!((mean - 500.0 / 101.0).abs() < 0.2, "{}", mean);
}

#[test]
fn single_site_metropolis_on_a_gaussian() {
    let mut i = Interpreter::new(SingleSiteMetropolis::new(10), Native::seeded(2024));
    let wanted = 5_000;
    let mut rounds = 0;
    while i.inference_alg.samples.len() < wanted {
        i.eval_program(gaussian_program(), 20_000).unwrap();
        rounds += 1;
        assert!(rounds < 200);
    }
    let xs: Vec<f64> = i.inference_alg.samples.iter().take(wanted).map(as_float).collect();
    let mean = xs.iter().sum::<f64>() / xs.len() as f64;
    assert!((mean - 500.0 / 101.0).abs() < 0.2, "{}", mean);
}

#[test]
fn value_types() {
    assert_eq!(Value::Float(fl(1.0)).get_type(), ValueType::Float);
    assert_eq!(Value::Integer(1).get_type(), ValueType::Integer);
    assert_eq!(Value::Boolean(true).get_type(), ValueType::Boolean);
    assert_eq!(Value::Distribution(std_normal()).get_type(), ValueType::Distribution);
    assert_eq!(Value::Vector(vec![]).get_type(), ValueType::Vector);
    assert_eq!(Value::Null.get_type(), ValueType::Null);
    let names: Vec<&str> = [
        ValueType::Float,
        ValueType::Integer,
        ValueType::Boolean,
        ValueType::Distribution,
        ValueType::Vector,
        ValueType::Null,
    ]
    .iter()
    .map(|t| t.name())
    .collect();
    assert_eq!(names, vec!["Float", "Integer", "Boolean", "Distribution", "Vector", "Null"]);
}

#[test]
fn value_conversions() {
    assert_eq!(Value::Integer(3).try_into_usize("m").unwrap(), 3);
    assert_eq!(Value::Integer(0).try_into_usize("m").unwrap_err().message, "m");
    assert_eq!(Value::Integer(-3).try_into_usize("m").unwrap_err().message, "m");
    assert_eq!(Value::Float(fl(3.0)).try_into_usize("m").unwrap_err().message, "m");
    assert_eq!(Value::Integer(-3).try_into_integer("m").unwrap(), -3);
    assert_eq!(Value::Float(fl(3.0)).try_into_integer("not an int").unwrap_err().message, "not an int");
    assert_eq!(Value::Float(fl(3.5)).try_into_float("m").unwrap(), fl(3.5));
    assert_eq!(Value::Integer(3).try_into_float("m").unwrap_err().message, "m");
    assert_eq!(Value::Float(fl(3.5)).try_into_numeric("m").unwrap(), Number::Float(fl(3.5)));
    assert_eq!(Value::Integer(3).try_into_numeric("m").unwrap(), Number::Integer(3));
    assert_eq!(Value::Null.try_into_numeric("m").unwrap_err().message, "m");
    assert_eq!(
        Value::Vector(vec![Value::Integer(1)]).try_into_vector("m").unwrap(),
        vec![Value::Integer(1)]
    );
    assert_eq!(Value::Integer(1).try_into_vector("m").unwrap_err().message, "m");
}

#[test]
fn argument_list_conversions() {
    assert_eq!(
        vec![Value::Integer(1), Value::Float(fl(2.0))].try_into_numeric("m").unwrap(),
        vec![Number::Integer(1), Number::Float(fl(2.0))]
    );
    assert_eq!(Vec::<Value>::new().try_into_numeric("m").unwrap(), vec![]);
    assert_eq!(
        vec![Value::Integer(1), Value::Null].try_into_numeric("no numbers").unwrap_err().message,
        "no numbers"
    );
    assert_eq!(vec![Value::Integer(1)].try_into_one("m").unwrap(), Value::Integer(1));
    assert_eq!(Vec::<Value>::new().try_into_one("m").unwrap_err().message, "m");
    assert_eq!(
        vec![Value::Integer(1), Value::Integer(2)].try_into_one("one please").unwrap_err().message,
        "one please"
    );
}

#[test]
fn clones_are_equal() {
    let v = Value::Vector(vec![
        Value::Integer(1),
        Value::Vector(vec![Value::Float(fl(2.0)), Value::Null]),
        Value::Distribution(Distribution::Discrete(Discrete { weights: vec![Number::Integer(1)] })),
        Value::Boolean(true),
    ]);
    assert_eq!(v.clone(), v);
    let d = Distribution::Dirichlet(Dirichlet { parameters: vec![Number::Float(fl(0.5))] });
    assert_eq!(d.clone(), d);
}

#[test]
fn runtime_errors_render_their_cause() {
    let plain = RuntimeError::new("boom".to_string());
    assert_eq!(plain.message, "boom");
    assert!(plain.source.is_none());
    assert_eq!(plain.render(), "Runtime Error: boom");
    let wrapped = RuntimeError::wrap(RuntimeError::new("inner".to_string()));
    assert_eq!(wrapped.message, "");
    assert_eq!(wrapped.render(), "Runtime Error: Caused by:Runtime Error: inner");
    assert_eq!(foppl::types::fail::<i64>("x").unwrap_err().message, "x");
}
