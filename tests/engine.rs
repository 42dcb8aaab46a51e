use symreg::budget::EvaluationBudget;
use symreg::expr::Expr;
use rayon::iter::{IntoParallelIterator, ParallelIterator};
use std::collections::hash_map::DefaultHasher;
use std::sync::Mutex;
use std::hash::{Hash, Hasher};
use symreg::rng::{seed_from_formula, SeededRng};
use symreg::search::{pick_best, validate, ConfigError, Search, SearchConfig, SearchOutcome};

const PENALTY: f64 = 1e6;
const SIZE_WEIGHT: f64 = 0.01;

fn param(v: i64) -> f64 {
    v as f64 / 1000.0
}

fn eval(e: &Expr, x: f64) -> f64 {
    match e {
        Expr::Const(c) => param(*c),
        Expr::X => x,
        Expr::Add(a, b) => eval(a, x) + eval(b, x),
        Expr::Mul(a, b) => eval(a, x) * eval(b, x),
        Expr::Sin(a) => eval(a, x).sin(),
        Expr::Cos(a) => eval(a, x).cos(),
        Expr::Exp(a) => eval(a, x).exp(),
        Expr::Pow(a, p) => {
            let base = eval(a, x);
            if !base.is_finite() {
                f64::NAN
            } else if base < 0.0 && !Expr::exponent_is_whole(*p) {
                base.abs().powf(param(*p))
            } else {
                base.powf(param(*p))
            }
        }
        Expr::Scale(a, k) => eval(a, x) * param(*k),
    }
}

fn grid() -> Vec<f64> {
    (-50..=50).map(|i| i as f64 / 10.0).collect()
}

fn mse(e: &Expr, target: fn(f64) -> f64, xs: &[f64]) -> f64 {
    let sum: f64 = xs
        .iter()
        .map(|&x| {
            let v = eval(e, x);
            let d = if v.is_finite() { v - target(x) } else { PENALTY };
            d * d
        })
        .sum();
    sum / xs.len() as f64
}

fn key(f: f64) -> u64 {
    f.to_bits()
}

fn square(x: f64) -> f64 {
    x * x
}

fn run(seed: u64, gens: usize, pop: usize, budget: usize) -> SearchOutcome {
    let xs = grid();
    let fitness = |e: &Expr| key(mse(e, square, &xs) + SIZE_WEIGHT * e.size() as f64);
    let sane = |e: &Expr| eval(e, 0.0).is_finite() && eval(e, 1.0).is_finite();
    let config = SearchConfig::new(seed, gens, pop, budget);
    match Search::run(&config, &fitness, &sane) {
        Ok(o) => o,
        Err(e) => panic!("rejected: {:?}", e),
    }
}

fn x() -> Box<Expr> {
    Box::new(Expr::X)
}

#[test]
fn power_of_negative_base_uses_magnitude() {
    let e = Expr::Pow(Box::new(Expr::Const(-2000)), 2500);
    let v = eval(&e, 0.0);
    assert!(!v.is_nan());
    assert!((v - 2.0f64.powf(2.5)).abs() < 1e-12);
    assert!(!Expr::exponent_is_whole(2500));
    assert!(Expr::exponent_is_whole(2000));
    assert!(Expr::exponent_is_whole(-3000));
    assert!(!Expr::exponent_is_whole(-1500));
}

#[test]
fn quadratic_is_rediscovered() {
    let o = run(7, 50, 20, 1_000_000);
    assert!(o.generations <= 50);
    assert!(o.evaluations_used <= 50 * 20);
    let final_mse = mse(&o.best, square, &grid());
    assert!(final_mse < 0.5, "mse {} for {}", final_mse, o.best.render());
}

#[test]
fn one_generation_budget_stops_after_first_generation() {
    let o = run(11, 50, 20, 20);
    assert_eq!(o.generations, 1);
    assert_eq!(o.evaluations_used, 20);
    assert!(o.best_fitness.is_some());
}

#[test]
fn same_seed_same_result() {
    let a = run(99, 10, 12, 10_000);
    let b = run(99, 10, 12, 10_000);
    assert_eq!(a.best.render(), b.best.render());
    assert_eq!(a.best_fitness, b.best_fitness);
    assert_eq!(a.generations, b.generations);
}

#[test]
fn budget_runs_out_mid_generation() {
    let o = run(3, 50, 10, 25);
    assert_eq!(o.generations, 3);
    assert_eq!(o.evaluations_used, 25);
}

#[test]
fn generation_limit_ends_run() {
    let o = run(5, 4, 6, 1000);
    assert_eq!(o.generations, 4);
    assert_eq!(o.evaluations_used, 24);
}

#[test]
fn best_fitness_never_worsens() {
    let xs = grid();
    let fitness = |e: &Expr| key(mse(e, square, &xs) + SIZE_WEIGHT * e.size() as f64);
    let sane = |e: &Expr| eval(e, 0.0).is_finite() && eval(e, 1.0).is_finite();
    let config = SearchConfig::new(21, 30, 15, 100_000);
    let mut s = Search::new(&config).unwrap();
    let mut last: Option<u64> = None;
    while !s.is_finished() {
        s.step(&fitness, &sane);
        let now = s.best_fitness().unwrap();
        if let Some(l) = last {
            assert!(now <= l);
        }
        last = Some(now);
        assert_eq!(s.population().len(), 15);
    }
    assert_eq!(s.generation(), 30);
}

#[test]
fn budget_never_exceeds_ceiling() {
    let mut b = EvaluationBudget::new(5);
    let mut ok = 0;
    for _ in 0..12 {
        if b.try_claim() {
            ok += 1;
        }
    }
    assert_eq!(ok, 5);
    assert_eq!(b.used(), 5);
    assert_eq!(b.remaining(), 0);
    assert!(b.is_exhausted());
    let mut z = EvaluationBudget::new(0);
    assert!(!z.try_claim());
    assert_eq!(z.used(), 0);
}

#[test]
fn invalid_configurations_are_rejected() {
    assert_eq!(validate(&SearchConfig::new(1, 10, 0, 10)), Err(ConfigError::ZeroPopulation));
    assert_eq!(validate(&SearchConfig::new(1, 10, 5, 0)), Err(ConfigError::ZeroBudget));
    assert_eq!(validate(&SearchConfig::new(1, 0, 5, 10)), Ok(()));
    let mut c = SearchConfig::new(1, 10, 5, 10);
    c.tournament_size = 0;
    assert_eq!(validate(&c), Err(ConfigError::ZeroTournament));
    assert!(Search::new(&SearchConfig::new(1, 10, 0, 10)).is_err());
    assert_eq!(validate(&SearchConfig::new(1, 10, 5, 10)), Ok(()));
}

#[test]
fn tournament_picks_lowest_earliest() {
    let fits = vec![5u64, 3, 9, 3];
    assert_eq!(pick_best(&fits, &vec![0u64, 2, 3, 1]), 3);
    assert_eq!(pick_best(&fits, &vec![2u64]), 2);
    assert_eq!(pick_best(&fits, &vec![1u64, 3]), 1);
}

#[test]
fn random_trees_respect_depth() {
    let mut rng = SeededRng::from_seed(4);
    for d in 0..6 {
        for _ in 0..50 {
            let e = Expr::random(&mut rng, d);
            assert!(e.depth() <= d);
        }
    }
    let leaf = Expr::random(&mut rng, 0);
    assert_eq!(leaf.size(), 1);
}

#[test]
fn mutation_at_root_replaces_with_leaf_or_keeps_shape() {
    let mut rng = SeededRng::from_seed(8);
    let e = Expr::Add(x(), Box::new(Expr::Const(1000)));
    for _ in 0..100 {
        let m = e.mutate(&mut rng, 0);
        match m {
            Expr::Add(a, b) => {
                assert!(matches!(*a, Expr::X) || a.depth() <= 1);
                if let Expr::Const(c) = *b {
                    assert!((800..1200).contains(&c) || c.abs() < 3000);
                }
            }
            other => assert_eq!(other.depth(), 0),
        }
    }
}

#[test]
fn crossover_leaf_gives_leaf_or_donor() {
    let mut rng = SeededRng::from_seed(2);
    let donor = Expr::Sin(x());
    for _ in 0..50 {
        let c = Expr::Const(500).crossover(&donor, &mut rng);
        let r = c.render();
        assert!(r == "0.500" || r == "sin(x)");
    }
}

#[test]
fn render_formats_parameters() {
    let e = Expr::Add(x(), Box::new(Expr::Const(-5)));
    assert_eq!(e.render(), "(x+-0.005)");
    let p = Expr::Pow(x(), 2500);
    assert_eq!(p.render(), "(x)^2.500");
    let s = Expr::Scale(Box::new(Expr::Sin(x())), 1500);
    assert_eq!(s.render(), "(1.500*sin(x))");
    let m = Expr::Mul(Box::new(Expr::Cos(x())), Box::new(Expr::Exp(Box::new(Expr::Const(12345)))));
    assert_eq!(m.render(), "(cos(x)*exp(12.345))");
    assert_eq!(Expr::Const(0).render(), "0.000");
}

#[test]
fn size_and_depth_count_every_node() {
    let e = Expr::Scale(Box::new(Expr::Add(x(), Box::new(Expr::Pow(x(), 2000)))), 1000);
    assert_eq!(e.size(), 5);
    assert_eq!(e.depth(), 3);
    let c = e.deep_copy();
    assert_eq!(c.render(), e.render());
}

#[test]
fn formula_seed_matches_std_hash_of_text() {
    let f = "(x*sin(x))";
    let mut h = DefaultHasher::new();
    f.hash(&mut h);
    assert_eq!(seed_from_formula(f), h.finish());
    assert_eq!(seed_from_formula(f), seed_from_formula(f));
    assert_ne!(seed_from_formula("x"), seed_from_formula("(x)"));
}

#[test]
fn budget_exact_under_contention() {
    let shared = Mutex::new(EvaluationBudget::new(1000));
    let granted: usize = (0..5000usize)
        .into_par_iter()
        .map(|_| if shared.lock().unwrap().try_claim() { 1 } else { 0 })
        .sum();
    assert_eq!(granted, 1000);
    assert_eq!(shared.lock().unwrap().used(), 1000);
    let small = Mutex::new(EvaluationBudget::new(1000));
    let granted_small: usize = (0..300usize)
        .into_par_iter()
        .map(|_| if small.lock().unwrap().try_claim() { 1 } else { 0 })
        .sum();
    assert_eq!(granted_small, 300);
    assert_eq!(small.lock().unwrap().used(), 300);
}

#[test]
fn zero_generation_limit_returns_first_tree() {
    let o = run(13, 0, 8, 100);
    assert_eq!(o.generations, 0);
    assert_eq!(o.evaluations_used, 0);
    assert!(o.best_fitness.is_none());
    let s = Search::new(&SearchConfig::new(13, 0, 8, 100)).unwrap();
    assert!(s.is_finished());
    assert_eq!(o.best.render(), s.population()[0].render());
}

fn params_ok(e: &Expr) -> bool {
    match e {
        Expr::Const(c) => (-3000..3000).contains(c),
        Expr::X => true,
        Expr::Add(a, b) | Expr::Mul(a, b) => params_ok(a) && params_ok(b),
        Expr::Sin(a) | Expr::Cos(a) | Expr::Exp(a) => params_ok(a),
        Expr::Pow(a, p) => params_ok(a) && (500..3000).contains(p),
        Expr::Scale(a, k) => params_ok(a) && (-3000..3000).contains(k),
    }
}

#[test]
fn random_trees_have_parameters_in_range() {
    let mut rng = SeededRng::from_seed(31);
    for _ in 0..300 {
        let e = Expr::random(&mut rng, 4);
        assert!(params_ok(&e));
    }
}

#[test]
fn one_generation_budget_keeps_lowest_first() {
    let xs = grid();
    let config = SearchConfig::new(17, 50, 10, 10);
    let fitness = |e: &Expr| key(mse(e, square, &xs) + SIZE_WEIGHT * e.size() as f64);
    let sane = |e: &Expr| eval(e, 0.0).is_finite() && eval(e, 1.0).is_finite();
    let mut s = Search::new(&config).unwrap();
    let first: Vec<String> = s.population().iter().map(|e| e.render()).collect();
    let keys = s.step(&fitness, &sane);
    assert!(s.is_finished());
    let all: Vec<u64> = keys.iter().map(|k| k.unwrap()).collect();
    let min = *all.iter().min().unwrap();
    let first_min = all.iter().position(|k| *k == min).unwrap();
    assert_eq!(s.best_fitness(), Some(min));
    assert_eq!(s.best().render(), first[first_min]);
}
