//! The generational driver: evaluate the population under the shared budget,
//! keep the best tree of the whole run, and breed the next generation.
//!
//! Fitness is computed by the caller and handed in as an ordered key: any
//! `u64` whose order is the order of the fitness values, lower being better.
//! The sanity check on offspring is also the caller's: it answers whether a
//! tree evaluates to finite values at a few trivial points.

use crate::budget::{count_after, EvaluationBudget};
use crate::expr::{
    crossover_from, lemma_crossover_extends, lemma_local_opt_extends, lemma_random_extends,
    local_opt_from, min_nat, mutate_from, params_in_range, random_from, Expr,
};
use crate::rng::{extends, lemma_extends_trans, SeededRng};
use vstd::prelude::*;

verus! {

/// Depth of the random trees the first generation is built from.
pub const INIT_DEPTH: usize = 3;

/// Depth of the fresh tree that replaces an offspring failing the sanity check.
pub const REANIMATE_DEPTH: usize = 2;

/// What one search is asked to do.
pub struct SearchConfig {
    /// Seed of the only source of randomness of the run.
    pub seed: u64,
    /// Most generations to run.
    pub generation_limit: usize,
    /// Number of trees in every generation.
    pub population_size: usize,
    /// Most fitness evaluations over the whole run.
    pub eval_budget: usize,
    /// Number of draws of each tournament.
    pub tournament_size: usize,
    /// Rounds of local search applied to the first parent before crossover.
    pub local_steps: usize,
}

impl SearchConfig {
    /// The defaults of the engine for the given seed and limits: tournaments
    /// of three and one round of local search.
    pub fn new(seed: u64, generation_limit: usize, population_size: usize, eval_budget: usize) -> (r:
        Self)
        ensures
            r.seed == seed,
            r.generation_limit == generation_limit,
            r.population_size == population_size,
            r.eval_budget == eval_budget,
            r.tournament_size == 3,
            r.local_steps == 1,
    {
        SearchConfig {
            seed,
            generation_limit,
            population_size,
            eval_budget,
            tournament_size: 3,
            local_steps: 1,
        }
    }
}

/// A configuration that no search can run on.
#[derive(Debug, PartialEq, Eq, Structural, Clone, Copy)]
pub enum ConfigError {
    ZeroPopulation,
    ZeroBudget,
    ZeroTournament,
}

/// The error that `validate` gives for `c`, if any; the first that applies.
/// A zero generation limit is valid: the run then evaluates nothing.
pub open spec fn config_error(c: SearchConfig) -> Option<ConfigError> {
    if c.population_size == 0 {
        Some(ConfigError::ZeroPopulation)
    } else if c.eval_budget == 0 {
        Some(ConfigError::ZeroBudget)
    } else if c.tournament_size == 0 {
        Some(ConfigError::ZeroTournament)
    } else {
        None
    }
}

/// Checks a configuration before any search work.
pub fn validate(c: &SearchConfig) -> (r: Result<(), ConfigError>)
    ensures
        r is Ok <==> config_error(*c) is None,
        r matches Err(e) ==> config_error(*c) == Some(e),
{
    if c.population_size == 0 {
        Err(ConfigError::ZeroPopulation)
    } else if c.eval_budget == 0 {
        Err(ConfigError::ZeroBudget)
    } else if c.tournament_size == 0 {
        Err(ConfigError::ZeroTournament)
    } else {
        Ok(())
    }
}

/// A fitness key `f` beats the best so far (none yet counts as the worst).
/// Ties keep the existing best.
pub open spec fn beats(f: u64, best: Option<u64>) -> bool {
    match best {
        None => true,
        Some(b) => f < b,
    }
}

/// `new` is no worse than `old`.
pub open spec fn no_worse(new: Option<u64>, old: Option<u64>) -> bool {
    match old {
        None => true,
        Some(o) => match new {
            None => false,
            Some(n) => n <= o,
        },
    }
}

/// Evaluates each tree in order, claiming one unit of budget before each
/// evaluation; once a claim fails, no further evaluation is made and the
/// remaining entries are `None`.
pub fn evaluate_population<F: Fn(&Expr) -> u64>(
    pop: &Vec<Expr>,
    budget: &mut EvaluationBudget,
    fitness: &F,
) -> (r: Vec<Option<u64>>)
    requires
        old(budget).wf(),
        forall|e: &Expr| #[trigger] fitness.requires((e,)),
    ensures
        final(budget).wf(),
        final(budget).spec_ceiling() == old(budget).spec_ceiling(),
        final(budget).spec_used() == count_after(
            old(budget).spec_used(),
            pop.len() as nat,
            old(budget).spec_ceiling(),
        ),
        r.len() == pop.len(),
        forall|i: int|
            0 <= i < r.len() ==> (r[i] is Some <==> old(budget).spec_used() + i < old(budget).spec_ceiling()),
        forall|i: int|
            0 <= i < r.len() ==> (#[trigger] r[i] matches Some(f) ==> fitness.ensures(
                (&pop[i],),
                f,
            )),
{
    let mut fits: Vec<Option<u64>> = Vec::new();
    let mut i: usize = 0;
    while i < pop.len()
        invariant
            i <= pop.len(),
            fits.len() == i,
            budget.wf(),
            budget.spec_ceiling() == old(budget).spec_ceiling(),
            budget.spec_used() == count_after(
                old(budget).spec_used(),
                i as nat,
                old(budget).spec_ceiling(),
            ),
            forall|e: &Expr| #[trigger] fitness.requires((e,)),
            forall|j: int|
                0 <= j < i ==> (fits[j] is Some <==> old(budget).spec_used() + j < old(budget).spec_ceiling()),
            forall|j: int|
                0 <= j < i ==> (#[trigger] fits[j] matches Some(f) ==> fitness.ensures(
                    (&pop[j],),
                    f,
                )),
        decreases pop.len() - i,
    {
        if budget.try_claim() {
            let f = fitness(&pop[i]);
            fits.push(Some(f));
        } else {
            fits.push(None);
        }
        i = i + 1;
    }
    fits
}

/// The winner among the drawn indices `cands`: the drawn tree of lowest
/// key, the earliest draw among equals.
pub open spec fn first_min(keys: Seq<u64>, cands: Seq<u64>) -> nat
    decreases cands.len(),
{
    if cands.len() <= 1 {
        cands[0] as nat
    } else {
        let w = first_min(keys, cands.drop_last());
        if keys[cands.last() as int] < keys[w as int] {
            cands.last() as nat
        } else {
            w
        }
    }
}

/// A tournament of `k` draws from `ds` at `p`, each draw an index: the
/// winner and the position after the draws.
pub open spec fn tournament_from(keys: Seq<u64>, ds: Seq<u64>, p: nat, k: nat) -> Option<(nat, nat)> {
    if p + k > ds.len() {
        None
    } else {
        Some((first_min(keys, ds.subrange(p as int, (p + k) as int)), p + k))
    }
}

/// Picks the winner among the drawn indices `cands`.
pub fn pick_best(fits: &Vec<u64>, cands: &Vec<u64>) -> (r: usize)
    requires
        cands.len() > 0,
        forall|j: int| 0 <= j < cands.len() ==> #[trigger] cands[j] < fits.len(),
    ensures
        r < fits.len(),
        r == first_min(fits@, cands@),
{
    let mut best = cands[0] as usize;
    let mut j: usize = 1;
    assert(cands@.subrange(0, 1).len() == 1 && cands@.subrange(0, 1)[0] == cands@[0]);
    while j < cands.len()
        invariant
            1 <= j <= cands.len(),
            best < fits.len(),
            best == first_min(fits@, cands@.subrange(0, j as int)),
            forall|q: int| 0 <= q < cands.len() ==> #[trigger] cands[q] < fits.len(),
        decreases cands.len() - j,
    {
        let ghost sub = cands@.subrange(0, j + 1 as int);
        assert(sub.drop_last() =~= cands@.subrange(0, j as int));
        assert(sub.last() == cands@[j as int]);
        let c = cands[j] as usize;
        if fits[c] < fits[best] {
            best = c;
        }
        j = j + 1;
    }
    assert(cands@.subrange(0, cands.len() as int) =~= cands@);
    best
}

/// Tournament selection: `k` indices drawn uniformly with replacement, and
/// the winner among them.
pub fn tournament(fits: &Vec<u64>, rng: &mut SeededRng, k: usize) -> (r: usize)
    requires
        fits.len() > 0,
        k > 0,
    ensures
        r < fits.len(),
        extends(final(rng).spec_log(), old(rng).spec_log()),
        tournament_from(fits@, final(rng).spec_log(), old(rng).spec_log().len(), k as nat) == Some(
            (r as nat, final(rng).spec_log().len()),
        ),
{
    let ghost p0 = rng.spec_log().len();
    let mut cands: Vec<u64> = Vec::new();
    let mut i: usize = 0;
    while i < k
        invariant
            i <= k,
            fits.len() > 0,
            rng.spec_log().len() == p0 + i,
            extends(rng.spec_log(), old(rng).spec_log()),
            p0 == old(rng).spec_log().len(),
            cands@ == rng.spec_log().subrange(p0 as int, p0 + i),
            forall|q: int| 0 <= q < i ==> #[trigger] cands[q] < fits.len(),
        decreases k - i,
    {
        let ghost before = rng.spec_log();
        let c = rng.index(fits.len());
        cands.push(c as u64);
        assert(cands@ =~= rng.spec_log().subrange(p0 as int, p0 + i + 1));
        i = i + 1;
    }
    pick_best(fits, &cands)
}

/// The offspring bred from the draws at `p`: two tournament winners, the
/// first after `steps` rounds of local search, crossed with the second as
/// donor, then mutated at the root level.
pub open spec fn offspring_from(
    pop: Seq<Expr>,
    keys: Seq<u64>,
    k: nat,
    steps: nat,
    ds: Seq<u64>,
    p: nat,
) -> Option<(Expr, nat)> {
    match tournament_from(keys, ds, p, k) {
        Some((a, q1)) => match tournament_from(keys, ds, q1, k) {
            Some((b, q2)) => match local_opt_from(pop[a as int], steps, ds, q2) {
                Some((m, q3)) => match crossover_from(m, pop[b as int], ds, q3) {
                    Some((c, q4)) => mutate_from(c, 0, ds, q4),
                    None => None,
                },
                None => None,
            },
            None => None,
        },
        None => None,
    }
}

/// `child` was made from the draws at `p`: the offspring bred there if the
/// sanity check accepts it, otherwise, when the check rejects it, the fresh
/// tree no deeper than `REANIMATE_DEPTH` built from the draws that follow.
pub open spec fn child_at<S: Fn(&Expr) -> bool>(
    pop: Seq<Expr>,
    keys: Seq<u64>,
    k: nat,
    steps: nat,
    ds: Seq<u64>,
    p: nat,
    sane: S,
    child: Expr,
) -> bool {
    match offspring_from(pop, keys, k, steps, ds, p) {
        Some((c, q)) => (sane.ensures((&c,), true) && child == c) || (sane.ensures((&c,), false)
            && random_from(ds, q, REANIMATE_DEPTH as nat) is Some && (random_from(
            ds,
            q,
            REANIMATE_DEPTH as nat,
        )->0).0 == child && child.spec_depth() <= REANIMATE_DEPTH && params_in_range(child)),
        None => false,
    }
}

/// `child` was made from some position of the draws `ds` (see `child_at`).
pub open spec fn made_from_draws<S: Fn(&Expr) -> bool>(
    pop: Seq<Expr>,
    keys: Seq<u64>,
    k: nat,
    steps: nat,
    ds: Seq<u64>,
    sane: S,
    child: Expr,
) -> bool {
    exists|p: nat| #[trigger] child_at(pop, keys, k, steps, ds, p, sane, child)
}

proof fn lemma_tournament_extends(keys: Seq<u64>, ds: Seq<u64>, es: Seq<u64>, p: nat, k: nat)
    requires
        tournament_from(keys, ds, p, k) is Some,
        extends(es, ds),
    ensures
        tournament_from(keys, es, p, k) == tournament_from(keys, ds, p, k),
{
    assert(es.subrange(p as int, (p + k) as int) =~= ds.subrange(p as int, (p + k) as int));
}

proof fn lemma_offspring_extends(
    pop: Seq<Expr>,
    keys: Seq<u64>,
    k: nat,
    steps: nat,
    ds: Seq<u64>,
    es: Seq<u64>,
    p: nat,
)
    requires
        offspring_from(pop, keys, k, steps, ds, p) is Some,
        extends(es, ds),
    ensures
        offspring_from(pop, keys, k, steps, es, p) == offspring_from(pop, keys, k, steps, ds, p),
{
    lemma_tournament_extends(keys, ds, es, p, k);
    let (a, q1) = tournament_from(keys, ds, p, k)->0;
    lemma_tournament_extends(keys, ds, es, q1, k);
    let (b, q2) = tournament_from(keys, ds, q1, k)->0;
    lemma_local_opt_extends(pop[a as int], steps, ds, es, q2);
    let (m, q3) = local_opt_from(pop[a as int], steps, ds, q2)->0;
    lemma_crossover_extends(m, pop[b as int], ds, es, q3);
    let (c, q4) = crossover_from(m, pop[b as int], ds, q3)->0;
    crate::expr::lemma_mutate_extends(c, 0, ds, es, q4);
}

proof fn lemma_child_extends<S: Fn(&Expr) -> bool>(
    pop: Seq<Expr>,
    keys: Seq<u64>,
    k: nat,
    steps: nat,
    ds: Seq<u64>,
    es: Seq<u64>,
    p: nat,
    sane: S,
    child: Expr,
)
    requires
        child_at(pop, keys, k, steps, ds, p, sane, child),
        extends(es, ds),
    ensures
        child_at(pop, keys, k, steps, es, p, sane, child),
{
    lemma_offspring_extends(pop, keys, k, steps, ds, es, p);
    let (c, q) = offspring_from(pop, keys, k, steps, ds, p)->0;
    if random_from(ds, q, REANIMATE_DEPTH as nat) is Some {
        lemma_random_extends(ds, es, q, REANIMATE_DEPTH as nat);
    }
}

/// Builds the next generation from `pop` and its fitness keys: the elite
/// `best` in slot 0, then offspring until the population is full. Each
/// offspring is bred from two tournament winners and kept if `sane` accepts
/// it; otherwise a fresh tree no deeper than `REANIMATE_DEPTH` takes its place.
/// Every offspring is the one that the recorded draws give.
pub fn breed<S: Fn(&Expr) -> bool>(
    pop: &Vec<Expr>,
    keys: &Vec<u64>,
    best: &Expr,
    rng: &mut SeededRng,
    tournament_size: usize,
    local_steps: usize,
    sane: &S,
) -> (r: Vec<Expr>)
    requires
        pop.len() > 0,
        keys.len() == pop.len(),
        tournament_size > 0,
        forall|e: &Expr| #[trigger] sane.requires((e,)),
    ensures
        r.len() == pop.len(),
        r[0] == *best,
        extends(final(rng).spec_log(), old(rng).spec_log()),
        forall|i: int|
            1 <= i < r.len() ==> made_from_draws(
                pop@,
                keys@,
                tournament_size as nat,
                local_steps as nat,
                final(rng).spec_log(),
                *sane,
                #[trigger] r[i],
            ),
{
    let ghost kk = tournament_size as nat;
    let ghost ss = local_steps as nat;
    let mut next: Vec<Expr> = Vec::new();
    next.push(best.deep_copy());
    while next.len() < pop.len()
        invariant
            1 <= next.len() <= pop.len(),
            kk == tournament_size as nat,
            ss == local_steps as nat,
            keys.len() == pop.len(),
            tournament_size > 0,
            next[0] == *best,
            extends(rng.spec_log(), old(rng).spec_log()),
            forall|e: &Expr| #[trigger] sane.requires((e,)),
            forall|i: int|
                1 <= i < next.len() ==> made_from_draws(
                    pop@,
                    keys@,
                    kk,
                    ss,
                    rng.spec_log(),
                    *sane,
                    #[trigger] next[i],
                ),
        decreases pop.len() - next.len(),
    {
        let ghost l0 = rng.spec_log();
        let ghost p0 = l0.len();
        let a = tournament(keys, rng, tournament_size);
        let ghost l1 = rng.spec_log();
        let b = tournament(keys, rng, tournament_size);
        let ghost l2 = rng.spec_log();
        let m = pop[a].local_opt(rng, local_steps);
        let ghost l3 = rng.spec_log();
        let c = m.crossover(&pop[b], rng);
        let ghost l4 = rng.spec_log();
        let child = c.mutate(rng, 0);
        let ghost l5 = rng.spec_log();
        proof {
            lemma_tournament_extends(keys@, l1, l5, p0, kk);
            lemma_tournament_extends(keys@, l2, l5, l1.len(), kk);
            lemma_local_opt_extends(pop@[a as int], ss, l3, l5, l2.len());
            lemma_crossover_extends(m, pop@[b as int], l4, l5, l3.len());
            assert(offspring_from(pop@, keys@, kk, ss, l5, p0) == Some((child, l5.len())));
        }
        let kept = sane(&child);
        let item = if kept {
            child
        } else {
            Expr::random(rng, REANIMATE_DEPTH)
        };
        let ghost l6 = rng.spec_log();
        proof {
            lemma_extends_trans(l0, l1, l2);
            lemma_extends_trans(l0, l2, l3);
            lemma_extends_trans(l0, l3, l4);
            lemma_extends_trans(l0, l4, l5);
            lemma_extends_trans(l0, l5, l6);
            lemma_extends_trans(old(rng).spec_log(), l0, l6);
            lemma_offspring_extends(pop@, keys@, kk, ss, l5, l6, p0);
            assert(child_at(pop@, keys@, kk, ss, l6, p0, *sane, item));
            assert forall|i: int| 1 <= i < next.len() implies made_from_draws(
                pop@,
                keys@,
                kk,
                ss,
                l6,
                *sane,
                #[trigger] next[i],
            ) by {
                let p = choose|p: nat| #[trigger] child_at(pop@, keys@, kk, ss, l0, p, *sane, next[i]);
                lemma_child_extends(pop@, keys@, kk, ss, l0, l6, p, *sane, next[i]);
            }
        }
        let ghost nv = next@;
        next.push(item);
        proof {
            assert forall|i: int| 1 <= i < next.len() implies made_from_draws(
                pop@,
                keys@,
                kk,
                ss,
                l6,
                *sane,
                #[trigger] next[i],
            ) by {
                if i == next.len() - 1 {
                    assert(child_at(pop@, keys@, kk, ss, l6, p0, *sane, next[i]));
                } else {
                    assert(next[i] == nv[i]);
                }
            }
        }
    }
    next
}

/// The generations of a run: each one's population and the fitness keys
/// it got (`None` where the budget was used up).
pub type History = Seq<(Seq<Expr>, Seq<Option<u64>>)>;

/// Position `(g1, i1)` (generation, index) comes before `(g2, i2)`.
pub open spec fn earlier(g1: int, i1: int, g2: int, i2: int) -> bool {
    g1 < g2 || (g1 == g2 && i1 < i2)
}

/// Every key of `h` is at least `b`.
pub open spec fn all_at_least(h: History, b: u64) -> bool {
    forall|g: int, i: int|
        0 <= g < h.len() && 0 <= i < h[g].1.len() && #[trigger] h[g].1[i] is Some ==> b <= h[g].1[i]->0
}

/// Every key of `h` before position `(g, i)` is above `b`.
pub open spec fn none_before(h: History, g: int, i: int, b: u64) -> bool {
    forall|g2: int, i2: int|
        0 <= g2 < h.len() && 0 <= i2 < h[g2].1.len() && earlier(g2, i2, g, i) && #[trigger] h[g2].1[i2] is Some
            ==> b < h[g2].1[i2]->0
}

/// `best`, of key `b`, is the earliest tree of lowest key in `h`.
pub open spec fn earliest_best(h: History, best: Expr, b: u64) -> bool {
    &&& all_at_least(h, b)
    &&& exists|g: int, i: int|
        0 <= g < h.len() && 0 <= i < h[g].1.len() && #[trigger] h[g].1[i] == Some(b) && h[g].0[i]
            == best && none_before(h, g, i, b)
}

/// The result of a finished search.
pub struct SearchOutcome {
    /// The best tree of the whole run.
    pub best: Expr,
    /// Its fitness key; `None` only if no tree was ever evaluated.
    pub best_fitness: Option<u64>,
    /// Generations run.
    pub generations: usize,
    /// Fitness evaluations made.
    pub evaluations_used: usize,
    /// The first population.
    pub initial: Ghost<Seq<Expr>>,
    /// Every generation run, with its keys.
    pub history: Ghost<History>,
}

/// What a finished run under `c` has done: at most `generation_limit`
/// generations, at least one unless the limit is zero; each generation
/// claimed the budget for every tree while budget lasted; a generation was
/// started only while budget was left; and the run stopped at the
/// generation limit or with the budget used up.
pub open spec fn outcome_of(c: SearchConfig, o: SearchOutcome) -> bool {
    let g = o.generations as nat;
    let pop = c.population_size as nat;
    &&& g <= c.generation_limit
    &&& (g == 0) == (c.generation_limit == 0)
    &&& o.evaluations_used == min_nat(c.eval_budget as nat, g * pop)
    &&& g == c.generation_limit || o.evaluations_used == c.eval_budget
    &&& g == 0 || (g - 1) * pop < c.eval_budget
    &&& (g > 0) == (o.best_fitness is Some)
    &&& o.history@.len() == g
    &&& o.initial@.len() == pop
    &&& (g == 0 ==> o.best == o.initial@[0])
    &&& (g > 0 ==> o.history@[0].0 == o.initial@)
    &&& forall|gi: int| 0 <= gi < g ==> (#[trigger] o.history@[gi]).0.len() == pop && o.history@[gi].1.len() == pop
    &&& forall|gi: int, i: int|
        0 <= gi < g && 0 <= i < pop ==> (#[trigger] o.history@[gi].1[i] is Some <==> gi * pop + i
            < c.eval_budget)
    &&& o.best_fitness matches Some(b) ==> earliest_best(o.history@, o.best, b)
}

/// A budget of exactly one generation's evaluations: the run stops after its
/// first generation, without starting a second, has used the whole budget,
/// and keeps the first tree of lowest key of that generation.
pub proof fn lemma_one_generation_budget(c: SearchConfig, o: SearchOutcome)
    requires
        config_error(c) is None,
        c.generation_limit > 0,
        c.eval_budget == c.population_size,
        outcome_of(c, o),
    ensures
        o.generations == 1,
        o.evaluations_used == c.eval_budget,
        o.best_fitness matches Some(b) && exists|i: int|
            0 <= i < c.population_size && o.history@[0].1[i] == Some(b) && o.initial@[i] == o.best
                && (forall|j: int| 0 <= j < c.population_size ==> (#[trigger] o.history@[0].1[j] matches Some(f) ==> b <= f))
                && (forall|j: int| 0 <= j < i ==> (#[trigger] o.history@[0].1[j] matches Some(f) ==> b < f)),
{
    let g = o.generations as nat;
    let pop = c.population_size as nat;
    if g >= 2 {
        assert((g - 1) * pop >= pop) by (nonlinear_arith)
            requires
                g >= 2,
                pop > 0,
        ;
    }
    assert(1 * pop == pop);
    let b = o.best_fitness->0;
    let h = o.history@;
    let (gw, iw) = choose|gw: int, iw: int|
        0 <= gw < h.len() && 0 <= iw < h[gw].1.len() && #[trigger] h[gw].1[iw] == Some(b) && h[gw].0[iw]
            == o.best && none_before(h, gw, iw, b);
    assert(gw == 0);
    assert forall|j: int| 0 <= j < c.population_size implies (#[trigger] h[0].1[j] matches Some(f) ==> b <= f) by {
        if h[0].1[j] is Some {
            assert(h[0].1[j] is Some);
        }
    }
    assert forall|j: int| 0 <= j < iw implies (#[trigger] h[0].1[j] matches Some(f) ==> b < f) by {
        if h[0].1[j] is Some {
            assert(earlier(0, j, gw, iw));
        }
    }
}

/// The state of one search between two generations.
pub struct Search {
    population: Vec<Expr>,
    best: Expr,
    best_fitness: Option<u64>,
    budget: EvaluationBudget,
    rng: SeededRng,
    generation: usize,
    generation_limit: usize,
    tournament_size: usize,
    local_steps: usize,
    finished: bool,
    initial: Ghost<Seq<Expr>>,
    history: Ghost<History>,
}

impl Search {
    pub closed spec fn spec_population(&self) -> Seq<Expr> {
        self.population@
    }

    pub closed spec fn spec_best(&self) -> Expr {
        self.best
    }

    pub closed spec fn spec_best_fitness(&self) -> Option<u64> {
        self.best_fitness
    }

    pub closed spec fn spec_budget(&self) -> EvaluationBudget {
        self.budget
    }

    pub closed spec fn spec_generation(&self) -> nat {
        self.generation as nat
    }

    pub closed spec fn spec_limit(&self) -> nat {
        self.generation_limit as nat
    }

    pub closed spec fn spec_tournament_size(&self) -> nat {
        self.tournament_size as nat
    }

    pub closed spec fn spec_finished(&self) -> bool {
        self.finished
    }

    /// The first population.
    pub closed spec fn spec_initial(&self) -> Seq<Expr> {
        self.initial@
    }

    /// The generations run so far, with their keys.
    pub closed spec fn spec_history(&self) -> History {
        self.history@
    }

    /// The invariant of a search: a fixed, non-empty population; the budget
    /// claimed for every tree of every generation run, in order, up to its
    /// ceiling; a running search below both limits; a finished one stopped
    /// by one of them; between generations, the elite in slot 0; and the best
    /// tree the earliest of lowest key over all generations run.
    pub open spec fn wf(&self) -> bool {
        let pop = self.spec_population().len();
        let g = self.spec_generation();
        let b = self.spec_budget();
        let h = self.spec_history();
        &&& pop > 0
        &&& self.spec_tournament_size() > 0
        &&& b.wf()
        &&& g <= self.spec_limit()
        &&& b.spec_used() == min_nat(b.spec_ceiling(), g * pop)
        &&& !self.spec_finished() ==> g < self.spec_limit() && g * pop < b.spec_ceiling()
        &&& self.spec_finished() ==> (g == self.spec_limit() || b.spec_used() == b.spec_ceiling()) && (g
            == 0 || (g - 1) * pop < b.spec_ceiling())
        &&& (g > 0) == (self.spec_best_fitness() is Some)
        &&& self.spec_initial().len() == pop
        &&& g == 0 ==> self.spec_population() == self.spec_initial() && self.spec_best()
            == self.spec_initial()[0]
        &&& !self.spec_finished() && g > 0 ==> self.spec_population()[0] == self.spec_best()
        &&& h.len() == g
        &&& g > 0 ==> h[0].0 == self.spec_initial()
        &&& forall|gi: int| 0 <= gi < g ==> (#[trigger] h[gi]).0.len() == pop && h[gi].1.len() == pop
        &&& forall|gi: int, i: int|
            0 <= gi < g && 0 <= i < pop ==> (#[trigger] h[gi].1[i] is Some <==> gi * pop + i
                < b.spec_ceiling())
        &&& self.spec_best_fitness() matches Some(bb) ==> earliest_best(h, self.spec_best(), bb)
    }

    /// Validates `config` and fills the first generation with random trees no
    /// deeper than `INIT_DEPTH`. With a zero generation limit the search is
    /// finished at once.
    pub fn new(config: &SearchConfig) -> (r: Result<Search, ConfigError>)
        ensures
            r is Ok <==> config_error(*config) is None,
            r matches Err(e) ==> config_error(*config) == Some(e),
            r matches Ok(s) ==> {
                &&& s.wf()
                &&& s.spec_finished() == (config.generation_limit == 0)
                &&& s.spec_generation() == 0
                &&& s.spec_limit() == config.generation_limit
                &&& s.spec_population().len() == config.population_size
                &&& s.spec_budget().spec_ceiling() == config.eval_budget
                &&& s.spec_budget().spec_used() == 0
                &&& s.spec_best_fitness() is None
                &&& forall|i: int|
                    0 <= i < s.spec_population().len() ==> (#[trigger] s.spec_population()[i]).spec_depth()
                        <= INIT_DEPTH && params_in_range(s.spec_population()[i])
            },
    {
        match validate(config) {
            Err(e) => { return Err(e); },
            Ok(()) => {},
        }
        let mut rng = SeededRng::from_seed(config.seed);
        let mut population: Vec<Expr> = Vec::new();
        while population.len() < config.population_size
            invariant
                population.len() <= config.population_size,
                forall|i: int|
                    0 <= i < population.len() ==> (#[trigger] population[i]).spec_depth()
                        <= INIT_DEPTH && params_in_range(population[i]),
            decreases config.population_size - population.len(),
        {
            population.push(Expr::random(&mut rng, INIT_DEPTH));
        }
        let best = population[0].deep_copy();
        let ghost init = population@;
        let s = Search {
            population,
            best,
            best_fitness: None,
            budget: EvaluationBudget::new(config.eval_budget),
            rng,
            generation: 0,
            generation_limit: config.generation_limit,
            tournament_size: config.tournament_size,
            local_steps: config.local_steps,
            finished: config.generation_limit == 0,
            initial: Ghost(init),
            history: Ghost(Seq::empty()),
        };
        assert(0 * s.population@.len() == 0);
        Ok(s)
    }

    /// Runs one generation and returns its fitness keys: evaluates the
    /// population under the budget, keeps the best tree of the run (the
    /// earliest of lowest key; a tie keeps the old one), and, unless the
    /// budget is used up or the generation limit reached, breeds the next
    /// generation with the elite in slot 0.
    pub fn step<F: Fn(&Expr) -> u64, S: Fn(&Expr) -> bool>(&mut self, fitness: &F, sane: &S) -> (keys:
        Vec<Option<u64>>)
        requires
            old(self).wf(),
            !old(self).spec_finished(),
            forall|e: &Expr| #[trigger] fitness.requires((e,)),
            forall|e: &Expr| #[trigger] sane.requires((e,)),
        ensures
            final(self).wf(),
            final(self).spec_generation() == old(self).spec_generation() + 1,
            final(self).spec_limit() == old(self).spec_limit(),
            final(self).spec_initial() == old(self).spec_initial(),
            final(self).spec_population().len() == old(self).spec_population().len(),
            final(self).spec_budget().spec_ceiling() == old(self).spec_budget().spec_ceiling(),
            final(self).spec_budget().spec_used() == count_after(
                old(self).spec_budget().spec_used(),
                old(self).spec_population().len() as nat,
                old(self).spec_budget().spec_ceiling(),
            ),
            final(self).spec_finished() == (final(self).spec_generation() == final(self).spec_limit()
                || final(self).spec_budget().spec_used() == final(self).spec_budget().spec_ceiling()),
            keys.len() == old(self).spec_population().len(),
            forall|i: int|
                0 <= i < keys.len() ==> (keys[i] is Some <==> old(self).spec_budget().spec_used() + i
                    < old(self).spec_budget().spec_ceiling()),
            forall|i: int|
                0 <= i < keys.len() ==> (#[trigger] keys[i] matches Some(f) ==> fitness.ensures(
                    (&old(self).spec_population()[i],),
                    f,
                )),
            final(self).spec_history() == old(self).spec_history().push(
                (old(self).spec_population(), keys@),
            ),
            no_worse(final(self).spec_best_fitness(), old(self).spec_best_fitness()),
            forall|i: int|
                0 <= i < keys.len() ==> (#[trigger] keys[i] matches Some(f) ==> (final(self).spec_best_fitness() matches Some(b) && b <= f)),
            final(self).spec_best_fitness() != old(self).spec_best_fitness() ==> exists|j: int|
                0 <= j < keys.len() && #[trigger] keys[j] == final(self).spec_best_fitness() && final(self).spec_best() == old(self).spec_population()[j] && forall|j2: int|
                    0 <= j2 < j ==> (#[trigger] keys[j2] matches Some(f) ==> final(self).spec_best_fitness()->0 < f),
            final(self).spec_best_fitness() == old(self).spec_best_fitness() ==> final(self).spec_best()
                == old(self).spec_best(),
    {
        let ghost g = self.generation as nat;
        let ghost pop = self.population.len() as nat;
        let ghost old_best = self.best_fitness;
        let ghost s0 = *self;
        let fits = evaluate_population(&self.population, &mut self.budget, fitness);
        assert(fits[0] is Some);
        let ghost s1 = *self;
        let mut i: usize = 0;
        while i < fits.len()
            invariant
                self.population == s1.population,
                self.budget == s1.budget,
                self.generation == s1.generation,
                self.generation_limit == s1.generation_limit,
                self.tournament_size == s1.tournament_size,
                self.finished == s1.finished,
                self.initial == s1.initial,
                self.history == s1.history,
                i <= fits.len(),
                fits.len() == self.population.len(),
                no_worse(self.best_fitness, old_best),
                i > 0 ==> self.best_fitness is Some,
                self.best_fitness != old_best ==> (self.best_fitness matches Some(b)
                    && fitness.ensures((&self.best,), b)),
                self.best_fitness == old_best ==> self.best == s1.best,
                forall|j: int|
                    0 <= j < fits.len() ==> (#[trigger] fits[j] matches Some(f) ==> fitness.ensures(
                        (&self.population[j],),
                        f,
                    )),
                forall|j: int|
                    0 <= j < i ==> (#[trigger] fits[j] matches Some(f) ==> (self.best_fitness matches Some(
                        b,
                    ) && b <= f)),
                self.best_fitness != old_best ==> (old_best matches Some(o) ==> self.best_fitness->0 < o),
                self.best_fitness != old_best ==> exists|j: int|
                    0 <= j < i && #[trigger] fits[j] == self.best_fitness && self.best
                        == self.population[j] && forall|j2: int|
                        0 <= j2 < j ==> (#[trigger] fits[j2] matches Some(f) ==> self.best_fitness->0 < f),
                fits[0] is Some,
                g > 0 ==> old_best is Some,
            decreases fits.len() - i,
        {
            match fits[i] {
                Some(f) => {
                    let better = match self.best_fitness {
                        None => true,
                        Some(b) => f < b,
                    };
                    if better {
                        self.best = self.population[i].deep_copy();
                        self.best_fitness = Some(f);
                        assert(fits[i as int] == self.best_fitness);
                    }
                },
                None => {},
            }
            i = i + 1;
        }
        let ghost h0 = self.history@;
        let ghost h1 = h0.push((self.population@, fits@));
        self.history = Ghost(h1);
        proof {
            let bb = self.best_fitness->0;
            assert(h1[g as int] == (self.population@, fits@));
            assert forall|gi: int| 0 <= gi < g ==> #[trigger] h1[gi] == h0[gi] by {}
            assert forall|gi: int, ii: int|
                0 <= gi < h1.len() && 0 <= ii < h1[gi].1.len() && #[trigger] h1[gi].1[ii] is Some implies bb
                <= h1[gi].1[ii]->0 by {
                if gi < g {
                    assert(h0[gi].1[ii] is Some);
                    assert(old_best is Some);
                } else {
                    assert(fits[ii] is Some);
                }
            }
            if self.best_fitness != old_best {
                let j = choose|j: int|
                    0 <= j < fits.len() && #[trigger] fits[j] == self.best_fitness && self.best
                        == self.population[j] && forall|j2: int|
                        0 <= j2 < j ==> (#[trigger] fits[j2] matches Some(f) ==> self.best_fitness->0 < f);
                assert(h1[g as int].1[j] == Some(bb));
                assert forall|g2: int, i2: int|
                    0 <= g2 < h1.len() && 0 <= i2 < h1[g2].1.len() && earlier(g2, i2, g as int, j)
                        && #[trigger] h1[g2].1[i2] is Some implies bb < h1[g2].1[i2]->0 by {
                    if g2 < g {
                        assert(h0[g2].1[i2] is Some);
                    } else {
                        assert(fits[i2] is Some);
                    }
                }
                assert(none_before(h1, g as int, j, bb));
            } else {
                let ob = old_best->0;
                assert(earliest_best(h0, s0.best, ob));
                let (gw, iw) = choose|gw: int, iw: int|
                    0 <= gw < h0.len() && 0 <= iw < h0[gw].1.len() && #[trigger] h0[gw].1[iw] == Some(ob)
                        && h0[gw].0[iw] == s0.best && none_before(h0, gw, iw, ob);
                assert(h1[gw].1[iw] == Some(bb));
                assert forall|g2: int, i2: int|
                    0 <= g2 < h1.len() && 0 <= i2 < h1[g2].1.len() && earlier(g2, i2, gw, iw)
                        && #[trigger] h1[g2].1[i2] is Some implies bb < h1[g2].1[i2]->0 by {
                    assert(h0[g2].1[i2] is Some);
                }
                assert(none_before(h1, gw, iw, bb));
            }
            assert forall|gi: int, ii: int|
                0 <= gi < g + 1 && 0 <= ii < pop implies (#[trigger] h1[gi].1[ii] is Some <==> gi * pop
                + ii < self.budget.spec_ceiling()) by {
                if gi < g {
                } else {
                }
            }
        }
        self.generation = self.generation + 1;
        assert((g + 1) * pop == g * pop + pop) by (nonlinear_arith);
        if self.budget.is_exhausted() || self.generation == self.generation_limit {
            self.finished = true;
            return fits;
        }
        let mut keys: Vec<u64> = Vec::new();
        let mut j: usize = 0;
        while j < fits.len()
            invariant
                j <= fits.len(),
                keys.len() == j,
                forall|q: int| 0 <= q < fits.len() ==> #[trigger] fits[q] is Some,
            decreases fits.len() - j,
        {
            match fits[j] {
                Some(f) => keys.push(f),
                None => keys.push(0),
            }
            j = j + 1;
        }
        let next = breed(
            &self.population,
            &keys,
            &self.best,
            &mut self.rng,
            self.tournament_size,
            self.local_steps,
            sane,
        );
        self.population = next;
        fits
    }

    /// Whether the search has stopped.
    pub fn is_finished(&self) -> (r: bool)
        ensures
            r == self.spec_finished(),
    {
        self.finished
    }

    /// Generations run so far.
    pub fn generation(&self) -> (r: usize)
        ensures
            r == self.spec_generation(),
    {
        self.generation
    }

    /// The current population.
    pub fn population(&self) -> (r: &Vec<Expr>)
        ensures
            r@ == self.spec_population(),
    {
        &self.population
    }

    /// The best tree of the run so far.
    pub fn best(&self) -> (r: &Expr)
        ensures
            *r == self.spec_best(),
    {
        &self.best
    }

    /// The fitness key of the best tree; `None` before any evaluation.
    pub fn best_fitness(&self) -> (r: Option<u64>)
        ensures
            r == self.spec_best_fitness(),
    {
        self.best_fitness
    }

    /// The budget of the run.
    pub fn budget(&self) -> (r: &EvaluationBudget)
        ensures
            *r == self.spec_budget(),
    {
        &self.budget
    }

    /// Runs a whole search under `config`, calling `fitness` for each
    /// evaluation the budget allows and `sane` on each offspring.
    pub fn run<F: Fn(&Expr) -> u64, S: Fn(&Expr) -> bool>(
        config: &SearchConfig,
        fitness: &F,
        sane: &S,
    ) -> (r: Result<SearchOutcome, ConfigError>)
        requires
            forall|e: &Expr| #[trigger] fitness.requires((e,)),
            forall|e: &Expr| #[trigger] sane.requires((e,)),
        ensures
            r is Ok <==> config_error(*config) is None,
            r matches Err(e) ==> config_error(*config) == Some(e),
            r matches Ok(o) ==> outcome_of(*config, o),
            r matches Ok(o) ==> forall|gi: int, i: int|
                0 <= gi < o.history@.len() && 0 <= i < o.history@[gi].1.len() ==> (
                #[trigger] o.history@[gi].1[i] matches Some(f) ==> fitness.ensures(
                    (&o.history@[gi].0[i],),
                    f,
                )),
            r matches Ok(o) ==> forall|i: int|
                0 <= i < o.initial@.len() ==> (#[trigger] o.initial@[i]).spec_depth() <= INIT_DEPTH
                    && params_in_range(o.initial@[i]),
    {
        let mut s = match Search::new(config) {
            Ok(s) => s,
            Err(e) => { return Err(e); },
        };
        let ghost init = s.spec_initial();
        while !s.finished
            invariant
                s.wf(),
                s.spec_limit() == config.generation_limit,
                s.spec_population().len() == config.population_size,
                s.spec_budget().spec_ceiling() == config.eval_budget,
                s.spec_initial() == init,
                forall|i: int|
                    0 <= i < init.len() ==> (#[trigger] init[i]).spec_depth() <= INIT_DEPTH
                        && params_in_range(init[i]),
                config.generation_limit == 0 ==> s.spec_generation() == 0,
                forall|gi: int, i: int|
                    0 <= gi < s.spec_history().len() && 0 <= i < s.spec_history()[gi].1.len() ==> (
                    #[trigger] s.spec_history()[gi].1[i] matches Some(f) ==> fitness.ensures(
                        (&s.spec_history()[gi].0[i],),
                        f,
                    )),
                forall|e: &Expr| #[trigger] fitness.requires((e,)),
                forall|e: &Expr| #[trigger] sane.requires((e,)),
            decreases s.spec_limit() - s.spec_generation(),
        {
            let ghost h0 = s.spec_history();
            let ghost p0 = s.spec_population();
            let keys = s.step(fitness, sane);
            proof {
                let h1 = s.spec_history();
                assert forall|gi: int, i: int|
                    0 <= gi < h1.len() && 0 <= i < h1[gi].1.len() implies (
                    #[trigger] h1[gi].1[i] matches Some(f) ==> fitness.ensures((&h1[gi].0[i],), f)) by {
                    if gi < h0.len() {
                        assert(h1[gi] == h0[gi]);
                    } else {
                        assert(h1[gi] == (p0, keys@));
                    }
                }
            }
        }
        let ghost used = s.budget.spec_used();
        let ghost pop = config.population_size as nat;
        let ghost g = s.spec_generation();
        proof {
            if g > 0 {
                assert(g * pop >= pop) by (nonlinear_arith)
                    requires
                        g > 0,
                ;
            }
        }
        Ok(
            SearchOutcome {
                best: s.best.deep_copy(),
                best_fitness: s.best_fitness,
                generations: s.generation,
                evaluations_used: s.budget.used(),
                initial: Ghost(s.initial@),
                history: Ghost(s.history@),
            },
        )
    }
}

} // verus!
