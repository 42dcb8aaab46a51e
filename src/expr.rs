//! Expression trees over one free variable `x`, and the genetic operators
//! that build new trees from old ones.
//!
//! Real-valued parameters (constants, exponents, scale factors) are held as
//! whole thousandths: the value `v` stands for `v / 1000`.

use crate::rng::{extends, SeededRng};
use crate::text::push_char;
use vstd::prelude::*;

verus! {

/// Parameters are whole multiples of `1 / PARAM_SCALE`.
pub const PARAM_SCALE: i64 = 1000;

/// Fresh constants and scale factors are drawn from `[-3, 3)`.
pub const CONST_LOW: i64 = -3000;
pub const CONST_HIGH: i64 = 3000;

/// Fresh exponents are drawn from `[0.5, 3)`.
pub const EXPONENT_LOW: i64 = 500;
pub const EXPONENT_HIGH: i64 = 3000;

/// A mutation moves a constant or a scale factor by less than 0.2 and an
/// exponent by less than 0.1.
pub const CONST_STEP: i64 = 200;
pub const EXPONENT_STEP: i64 = 100;

/// A subtree that mutation injects is at most this deep.
pub const MAX_FRESH_DEPTH: usize = 3;

/// Chance, in hundredths, that mutation replaces a subtree by a fresh one.
pub const REPLACE_PERCENT: u64 = 12;

/// Chance, in hundredths, that mutation turns a sine into a cosine or back.
pub const FLIP_PERCENT: u64 = 10;

/// Chance, in hundredths, that crossover takes the donor whole.
pub const DONOR_PERCENT: u64 = 10;

/// A scalar formula over `x`. Each compound node owns its children.
#[derive(Debug)]
pub enum Expr {
    /// A constant, in thousandths.
    Const(i64),
    /// The free variable.
    X,
    Add(Box<Expr>, Box<Expr>),
    Mul(Box<Expr>, Box<Expr>),
    Sin(Box<Expr>),
    Cos(Box<Expr>),
    Exp(Box<Expr>),
    /// The child raised to a fixed exponent, in thousandths.
    Pow(Box<Expr>, i64),
    /// The child times a fixed factor, in thousandths.
    Scale(Box<Expr>, i64),
}

pub open spec fn min_nat(a: nat, b: nat) -> nat {
    if a <= b {
        a
    } else {
        b
    }
}

pub open spec fn max_nat(a: nat, b: nat) -> nat {
    if a >= b {
        a
    } else {
        b
    }
}

/// The level below `level` when descending one node, counted no further than
/// `MAX_FRESH_DEPTH`: only that much of the level matters to mutation.
pub open spec fn next_level(level: nat) -> nat {
    if level < MAX_FRESH_DEPTH {
        level + 1
    } else {
        level
    }
}

/// Every constant and scale factor of `e` lies in `[CONST_LOW, CONST_HIGH)`
/// and every exponent in `[EXPONENT_LOW, EXPONENT_HIGH)`.
pub open spec fn params_in_range(e: Expr) -> bool
    decreases e,
{
    match e {
        Expr::Const(c) => CONST_LOW <= c < CONST_HIGH,
        Expr::X => true,
        Expr::Add(a, b) => params_in_range(*a) && params_in_range(*b),
        Expr::Mul(a, b) => params_in_range(*a) && params_in_range(*b),
        Expr::Sin(a) => params_in_range(*a),
        Expr::Cos(a) => params_in_range(*a),
        Expr::Exp(a) => params_in_range(*a),
        Expr::Pow(a, p) => params_in_range(*a) && EXPONENT_LOW <= p < EXPONENT_HIGH,
        Expr::Scale(a, k) => params_in_range(*a) && CONST_LOW <= k < CONST_HIGH,
    }
}

/// What a randomised operation builds from the draws `ds`, starting at
/// position `p`: the tree and the position after the draws it used; `None`
/// when the draws run out.
pub type Replay = Option<(Expr, nat)>;

/// A random leaf from the draws at `p`: a draw of 0 (of two) gives `x`,
/// otherwise the next draw (of 6000) gives the constant `CONST_LOW + draw`
/// (draws are taken modulo their span).
pub open spec fn leaf_from(ds: Seq<u64>, p: nat) -> Replay {
    if p >= ds.len() {
        None
    } else if ds[p as int] == 0 {
        Some((Expr::X, p + 1))
    } else if p + 1 >= ds.len() {
        None
    } else {
        Some((Expr::Const((CONST_LOW + ds[p + 1 as int] % 6000) as i64), p + 2))
    }
}

/// A random tree no deeper than `depth` from the draws at `p`. At depth 0 a
/// leaf; otherwise a draw (of eight) picks `+`, `*`, `sin`, `cos`, `exp`,
/// a power (exponent `EXPONENT_LOW + draw` of 2500, drawn after the child),
/// a scaling (factor `CONST_LOW + draw` of 6000, after the child) or a leaf;
/// children are built one level shallower, left before right.
pub open spec fn random_from(ds: Seq<u64>, p: nat, depth: nat) -> Replay
    decreases depth,
{
    if depth == 0 {
        leaf_from(ds, p)
    } else if p >= ds.len() {
        None
    } else {
        let k = ds[p as int];
        let q = p + 1;
        let d = (depth - 1) as nat;
        if k == 0 || k == 1 {
            match random_from(ds, q, d) {
                Some((a, q1)) => match random_from(ds, q1, d) {
                    Some((b, q2)) => Some(
                        (
                            if k == 0 {
                                Expr::Add(Box::new(a), Box::new(b))
                            } else {
                                Expr::Mul(Box::new(a), Box::new(b))
                            },
                            q2,
                        ),
                    ),
                    None => None,
                },
                None => None,
            }
        } else if 2 <= k <= 6 {
            match random_from(ds, q, d) {
                Some((a, q1)) => if k == 2 {
                    Some((Expr::Sin(Box::new(a)), q1))
                } else if k == 3 {
                    Some((Expr::Cos(Box::new(a)), q1))
                } else if k == 4 {
                    Some((Expr::Exp(Box::new(a)), q1))
                } else if q1 >= ds.len() {
                    None
                } else if k == 5 {
                    Some((Expr::Pow(Box::new(a), (EXPONENT_LOW + ds[q1 as int] % 2500) as i64), q1 + 1))
                } else {
                    Some((Expr::Scale(Box::new(a), (CONST_LOW + ds[q1 as int] % 6000) as i64), q1 + 1))
                },
                None => None,
            }
        } else {
            leaf_from(ds, q)
        }
    }
}

/// `v` moved by `w - step` for a draw `w` (of `2 * step`); kept as it is
/// where the move would leave the range of `i64`.
pub open spec fn nudged(v: i64, step: i64, w: u64) -> i64 {
    let s = v + (w - step);
    if i64::MIN <= s <= i64::MAX {
        s as i64
    } else {
        v
    }
}

/// A nudged parameter from the draw at `p`.
pub open spec fn nudge_from(v: i64, step: i64, ds: Seq<u64>, p: nat) -> Option<(i64, nat)> {
    if p >= ds.len() {
        None
    } else {
        Some((nudged(v, step, ds[p as int]), p + 1))
    }
}

/// The mutation of `e` seen at `level` from the draws at `p`. A first draw
/// (of 100) below `REPLACE_PERCENT` replaces the node by a random tree no
/// deeper than `min(level, MAX_FRESH_DEPTH)`. Otherwise constants and
/// scale factors are nudged by less than `CONST_STEP` and exponents by less
/// than `EXPONENT_STEP`, children are mutated one level down, left before
/// right, and a sine or cosine turns into the other over the same child on
/// a draw (of 100) below `FLIP_PERCENT`.
pub open spec fn mutate_from(e: Expr, level: nat, ds: Seq<u64>, p: nat) -> Replay
    decreases e,
{
    if p >= ds.len() {
        None
    } else if ds[p as int] < REPLACE_PERCENT {
        random_from(ds, p + 1, min_nat(level, MAX_FRESH_DEPTH as nat))
    } else {
        let q = p + 1;
        let l = next_level(level);
        match e {
            Expr::Const(c) => match nudge_from(c, CONST_STEP, ds, q) {
                Some((v, q1)) => Some((Expr::Const(v), q1)),
                None => None,
            },
            Expr::X => Some((Expr::X, q)),
            Expr::Add(a, b) => match mutate_from(*a, l, ds, q) {
                Some((ra, q1)) => match mutate_from(*b, l, ds, q1) {
                    Some((rb, q2)) => Some((Expr::Add(Box::new(ra), Box::new(rb)), q2)),
                    None => None,
                },
                None => None,
            },
            Expr::Mul(a, b) => match mutate_from(*a, l, ds, q) {
                Some((ra, q1)) => match mutate_from(*b, l, ds, q1) {
                    Some((rb, q2)) => Some((Expr::Mul(Box::new(ra), Box::new(rb)), q2)),
                    None => None,
                },
                None => None,
            },
            Expr::Sin(a) => if q >= ds.len() {
                None
            } else if ds[q as int] < FLIP_PERCENT {
                Some((Expr::Cos(a), q + 1))
            } else {
                match mutate_from(*a, l, ds, q + 1) {
                    Some((ra, q1)) => Some((Expr::Sin(Box::new(ra)), q1)),
                    None => None,
                }
            },
            Expr::Cos(a) => if q >= ds.len() {
                None
            } else if ds[q as int] < FLIP_PERCENT {
                Some((Expr::Sin(a), q + 1))
            } else {
                match mutate_from(*a, l, ds, q + 1) {
                    Some((ra, q1)) => Some((Expr::Cos(Box::new(ra)), q1)),
                    None => None,
                }
            },
            Expr::Exp(a) => match mutate_from(*a, l, ds, q) {
                Some((ra, q1)) => Some((Expr::Exp(Box::new(ra)), q1)),
                None => None,
            },
            Expr::Pow(a, pw) => match mutate_from(*a, l, ds, q) {
                Some((ra, q1)) => match nudge_from(pw, EXPONENT_STEP, ds, q1) {
                    Some((v, q2)) => Some((Expr::Pow(Box::new(ra), v), q2)),
                    None => None,
                },
                None => None,
            },
            Expr::Scale(a, k) => match mutate_from(*a, l, ds, q) {
                Some((ra, q1)) => match nudge_from(k, CONST_STEP, ds, q1) {
                    Some((v, q2)) => Some((Expr::Scale(Box::new(ra), v), q2)),
                    None => None,
                },
                None => None,
            },
        }
    }
}

/// `e` crossed with the donor `d`, from the draws at `p`. A first draw (of
/// 100) below `DONOR_PERCENT` gives the donor whole. Otherwise a unary node
/// carries the crossing into its child; a binary node into its left child on
/// a draw (of two) of 0, else into its right one, the other child kept;
/// leaves and parameterised nodes are kept.
pub open spec fn crossover_from(e: Expr, d: Expr, ds: Seq<u64>, p: nat) -> Replay
    decreases e,
{
    if p >= ds.len() {
        None
    } else if ds[p as int] < DONOR_PERCENT {
        Some((d, p + 1))
    } else {
        let q = p + 1;
        match e {
            Expr::Add(a, b) => if q >= ds.len() {
                None
            } else if ds[q as int] == 0 {
                match crossover_from(*a, d, ds, q + 1) {
                    Some((ra, q1)) => Some((Expr::Add(Box::new(ra), b), q1)),
                    None => None,
                }
            } else {
                match crossover_from(*b, d, ds, q + 1) {
                    Some((rb, q1)) => Some((Expr::Add(a, Box::new(rb)), q1)),
                    None => None,
                }
            },
            Expr::Mul(a, b) => if q >= ds.len() {
                None
            } else if ds[q as int] == 0 {
                match crossover_from(*a, d, ds, q + 1) {
                    Some((ra, q1)) => Some((Expr::Mul(Box::new(ra), b), q1)),
                    None => None,
                }
            } else {
                match crossover_from(*b, d, ds, q + 1) {
                    Some((rb, q1)) => Some((Expr::Mul(a, Box::new(rb)), q1)),
                    None => None,
                }
            },
            Expr::Sin(a) => match crossover_from(*a, d, ds, q) {
                Some((ra, q1)) => Some((Expr::Sin(Box::new(ra)), q1)),
                None => None,
            },
            Expr::Cos(a) => match crossover_from(*a, d, ds, q) {
                Some((ra, q1)) => Some((Expr::Cos(Box::new(ra)), q1)),
                None => None,
            },
            Expr::Exp(a) => match crossover_from(*a, d, ds, q) {
                Some((ra, q1)) => Some((Expr::Exp(Box::new(ra)), q1)),
                None => None,
            },
            _ => Some((e, q)),
        }
    }
}

/// The local search from `e` for `steps` rounds, from the draws at `p`: in
/// each round a draw (of two) of 0 mutates the current tree at the root
/// level, any other draw keeps it.
pub open spec fn local_opt_from(e: Expr, steps: nat, ds: Seq<u64>, p: nat) -> Replay
    decreases steps,
{
    if steps == 0 {
        Some((e, p))
    } else if p >= ds.len() {
        None
    } else if ds[p as int] == 0 {
        match mutate_from(e, 0, ds, p + 1) {
            Some((m, q)) => local_opt_from(m, (steps - 1) as nat, ds, q),
            None => None,
        }
    } else {
        local_opt_from(e, (steps - 1) as nat, ds, p + 1)
    }
}

/// Every tree that `random_from` builds is no deeper than asked and has its
/// parameters in range; so has every fresh subtree that a mutation injects.
pub proof fn lemma_random_shape(ds: Seq<u64>, p: nat, depth: nat)
    requires
        random_from(ds, p, depth) is Some,
    ensures
        (random_from(ds, p, depth)->0).0.spec_depth() <= depth,
        params_in_range((random_from(ds, p, depth)->0).0),
    decreases depth,
{
    if depth > 0 && p < ds.len() {
        let k = ds[p as int];
        let d = (depth - 1) as nat;
        if 0 <= k <= 6 {
            lemma_random_shape(ds, p + 1, d);
            if k <= 1 {
                let q1 = (random_from(ds, p + 1, d)->0).1;
                lemma_random_shape(ds, q1, d);
            }
        }
    }
}

/// A replay that succeeds on some draws gives the same result on any later
/// state of the same record.
pub proof fn lemma_random_extends(ds: Seq<u64>, es: Seq<u64>, p: nat, depth: nat)
    requires
        random_from(ds, p, depth) is Some,
        extends(es, ds),
    ensures
        random_from(es, p, depth) == random_from(ds, p, depth),
    decreases depth,
{
    if depth > 0 && p < ds.len() {
        let k = ds[p as int];
        let d = (depth - 1) as nat;
        if 0 <= k <= 6 {
            lemma_random_extends(ds, es, p + 1, d);
            if k <= 1 {
                let q1 = (random_from(ds, p + 1, d)->0).1;
                lemma_random_extends(ds, es, q1, d);
            }
        }
    }
}

/// See `lemma_random_extends`.
pub proof fn lemma_mutate_extends(e: Expr, level: nat, ds: Seq<u64>, es: Seq<u64>, p: nat)
    requires
        mutate_from(e, level, ds, p) is Some,
        extends(es, ds),
    ensures
        mutate_from(e, level, es, p) == mutate_from(e, level, ds, p),
    decreases e,
{
    if ds[p as int] < REPLACE_PERCENT {
        lemma_random_extends(ds, es, p + 1, min_nat(level, MAX_FRESH_DEPTH as nat));
    } else {
        let q = p + 1;
        let l = next_level(level);
        match e {
            Expr::Add(a, b) => {
                lemma_mutate_extends(*a, l, ds, es, q);
                lemma_mutate_extends(*b, l, ds, es, (mutate_from(*a, l, ds, q)->0).1);
            },
            Expr::Mul(a, b) => {
                lemma_mutate_extends(*a, l, ds, es, q);
                lemma_mutate_extends(*b, l, ds, es, (mutate_from(*a, l, ds, q)->0).1);
            },
            Expr::Sin(a) => {
                if ds[q as int] >= FLIP_PERCENT {
                    lemma_mutate_extends(*a, l, ds, es, q + 1);
                }
            },
            Expr::Cos(a) => {
                if ds[q as int] >= FLIP_PERCENT {
                    lemma_mutate_extends(*a, l, ds, es, q + 1);
                }
            },
            Expr::Exp(a) => {
                lemma_mutate_extends(*a, l, ds, es, q);
            },
            Expr::Pow(a, _) => {
                lemma_mutate_extends(*a, l, ds, es, q);
            },
            Expr::Scale(a, _) => {
                lemma_mutate_extends(*a, l, ds, es, q);
            },
            _ => {},
        }
    }
}

/// See `lemma_random_extends`.
pub proof fn lemma_crossover_extends(e: Expr, d: Expr, ds: Seq<u64>, es: Seq<u64>, p: nat)
    requires
        crossover_from(e, d, ds, p) is Some,
        extends(es, ds),
    ensures
        crossover_from(e, d, es, p) == crossover_from(e, d, ds, p),
    decreases e,
{
    if ds[p as int] >= DONOR_PERCENT {
        let q = p + 1;
        match e {
            Expr::Add(a, b) => {
                if ds[q as int] == 0 {
                    lemma_crossover_extends(*a, d, ds, es, q + 1);
                } else {
                    lemma_crossover_extends(*b, d, ds, es, q + 1);
                }
            },
            Expr::Mul(a, b) => {
                if ds[q as int] == 0 {
                    lemma_crossover_extends(*a, d, ds, es, q + 1);
                } else {
                    lemma_crossover_extends(*b, d, ds, es, q + 1);
                }
            },
            Expr::Sin(a) => {
                lemma_crossover_extends(*a, d, ds, es, q);
            },
            Expr::Cos(a) => {
                lemma_crossover_extends(*a, d, ds, es, q);
            },
            Expr::Exp(a) => {
                lemma_crossover_extends(*a, d, ds, es, q);
            },
            _ => {},
        }
    }
}

/// See `lemma_random_extends`.
pub proof fn lemma_local_opt_extends(e: Expr, steps: nat, ds: Seq<u64>, es: Seq<u64>, p: nat)
    requires
        local_opt_from(e, steps, ds, p) is Some,
        extends(es, ds),
    ensures
        local_opt_from(e, steps, es, p) == local_opt_from(e, steps, ds, p),
    decreases steps,
{
    if steps > 0 {
        if ds[p as int] == 0 {
            lemma_mutate_extends(e, 0, ds, es, p + 1);
            let (m, q) = mutate_from(e, 0, ds, p + 1)->0;
            lemma_local_opt_extends(m, (steps - 1) as nat, ds, es, q);
        } else {
            lemma_local_opt_extends(e, (steps - 1) as nat, ds, es, p + 1);
        }
    }
}

/// The decimal digit `d`.
pub open spec fn digit_char(d: nat) -> char {
    seq!['0', '1', '2', '3', '4', '5', '6', '7', '8', '9'][d as int]
}

/// The decimal numeral of `n`, without leading zeros.
pub open spec fn digits(n: nat) -> Seq<char>
    decreases n,
{
    if n < 10 {
        seq![digit_char(n)]
    } else {
        digits(n / 10).push(digit_char(n % 10))
    }
}

/// The absolute value of `v`.
pub open spec fn abs_int(v: int) -> nat {
    if v < 0 {
        (-v) as nat
    } else {
        v as nat
    }
}

/// A parameter in thousandths written as a decimal with three places, as in
/// `-0.005` or `2.500`.
pub open spec fn decimal_text(v: i64) -> Seq<char> {
    let a = abs_int(v as int);
    let sign = if v < 0 {
        seq!['-']
    } else {
        Seq::<char>::empty()
    };
    sign + digits(a / 1000) + seq![
        '.',
        digit_char((a / 100) % 10),
        digit_char((a / 10) % 10),
        digit_char(a % 10),
    ]
}

/// The text form of a tree: `x`, decimals for constants, `(a+b)`, `(a*b)`,
/// `sin(a)`, `cos(a)`, `exp(a)`, `(a)^p` and `(k*a)`.
pub open spec fn render_spec(e: Expr) -> Seq<char>
    decreases e,
{
    match e {
        Expr::Const(c) => decimal_text(c),
        Expr::X => seq!['x'],
        Expr::Add(a, b) => seq!['('] + render_spec(*a) + seq!['+'] + render_spec(*b) + seq![')'],
        Expr::Mul(a, b) => seq!['('] + render_spec(*a) + seq!['*'] + render_spec(*b) + seq![')'],
        Expr::Sin(a) => seq!['s', 'i', 'n', '('] + render_spec(*a) + seq![')'],
        Expr::Cos(a) => seq!['c', 'o', 's', '('] + render_spec(*a) + seq![')'],
        Expr::Exp(a) => seq!['e', 'x', 'p', '('] + render_spec(*a) + seq![')'],
        Expr::Pow(a, p) => seq!['('] + render_spec(*a) + seq![')', '^'] + decimal_text(p),
        Expr::Scale(a, k) => seq!['('] + decimal_text(k) + seq!['*'] + render_spec(*a) + seq![')'],
    }
}

impl Expr {
    /// Number of nodes.
    pub open spec fn spec_size(self) -> nat
        decreases self,
    {
        match self {
            Expr::Const(_) => 1,
            Expr::X => 1,
            Expr::Add(a, b) => 1 + a.spec_size() + b.spec_size(),
            Expr::Mul(a, b) => 1 + a.spec_size() + b.spec_size(),
            Expr::Sin(a) => 1 + a.spec_size(),
            Expr::Cos(a) => 1 + a.spec_size(),
            Expr::Exp(a) => 1 + a.spec_size(),
            Expr::Pow(a, _) => 1 + a.spec_size(),
            Expr::Scale(a, _) => 1 + a.spec_size(),
        }
    }

    /// Length of the longest path from the root to a leaf; a leaf has depth 0.
    pub open spec fn spec_depth(self) -> nat
        decreases self,
    {
        match self {
            Expr::Const(_) => 0,
            Expr::X => 0,
            Expr::Add(a, b) => 1 + max_nat(a.spec_depth(), b.spec_depth()),
            Expr::Mul(a, b) => 1 + max_nat(a.spec_depth(), b.spec_depth()),
            Expr::Sin(a) => 1 + a.spec_depth(),
            Expr::Cos(a) => 1 + a.spec_depth(),
            Expr::Exp(a) => 1 + a.spec_depth(),
            Expr::Pow(a, _) => 1 + a.spec_depth(),
            Expr::Scale(a, _) => 1 + a.spec_depth(),
        }
    }

    /// Number of nodes, or `usize::MAX` for a tree larger than that.
    pub fn size(&self) -> (r: usize)
        ensures
            r == min_nat(self.spec_size(), usize::MAX as nat),
        decreases self,
    {
        match self {
            Expr::Const(_) => 1,
            Expr::X => 1,
            Expr::Add(a, b) => sum_sizes(a.size(), b.size()),
            Expr::Mul(a, b) => sum_sizes(a.size(), b.size()),
            Expr::Sin(a) => one_more(a.size()),
            Expr::Cos(a) => one_more(a.size()),
            Expr::Exp(a) => one_more(a.size()),
            Expr::Pow(a, _) => one_more(a.size()),
            Expr::Scale(a, _) => one_more(a.size()),
        }
    }

    /// Depth of the tree, or `usize::MAX` for a deeper one.
    pub fn depth(&self) -> (r: usize)
        ensures
            r == min_nat(self.spec_depth(), usize::MAX as nat),
        decreases self,
    {
        match self {
            Expr::Const(_) => 0,
            Expr::X => 0,
            Expr::Add(a, b) => one_more(larger(a.depth(), b.depth())),
            Expr::Mul(a, b) => one_more(larger(a.depth(), b.depth())),
            Expr::Sin(a) => one_more(a.depth()),
            Expr::Cos(a) => one_more(a.depth()),
            Expr::Exp(a) => one_more(a.depth()),
            Expr::Pow(a, _) => one_more(a.depth()),
            Expr::Scale(a, _) => one_more(a.depth()),
        }
    }

    /// An independent tree equal to this one.
    pub fn deep_copy(&self) -> (r: Expr)
        ensures
            r == *self,
        decreases self,
    {
        match self {
            Expr::Const(c) => Expr::Const(*c),
            Expr::X => Expr::X,
            Expr::Add(a, b) => Expr::Add(Box::new(a.deep_copy()), Box::new(b.deep_copy())),
            Expr::Mul(a, b) => Expr::Mul(Box::new(a.deep_copy()), Box::new(b.deep_copy())),
            Expr::Sin(a) => Expr::Sin(Box::new(a.deep_copy())),
            Expr::Cos(a) => Expr::Cos(Box::new(a.deep_copy())),
            Expr::Exp(a) => Expr::Exp(Box::new(a.deep_copy())),
            Expr::Pow(a, p) => Expr::Pow(Box::new(a.deep_copy()), *p),
            Expr::Scale(a, k) => Expr::Scale(Box::new(a.deep_copy()), *k),
        }
    }

    /// A random leaf: the variable or a constant from `[-3, 3)`, by a fair coin.
    pub fn random_leaf(rng: &mut SeededRng) -> (r: Expr)
        ensures
            extends(final(rng).spec_log(), old(rng).spec_log()),
            leaf_from(final(rng).spec_log(), old(rng).spec_log().len()) == Some((r, final(rng).spec_log().len())),
            r.spec_depth() == 0,
            params_in_range(r),
    {
        let ghost p0 = rng.spec_log().len();
        let coin = rng.below(2);
        if coin == 0 {
            Expr::X
        } else {
            let ghost l1 = rng.spec_log();
            let v = rng.below(6000);
            assert(rng.spec_log()[p0 as int] == l1[p0 as int]);
            Expr::Const(CONST_LOW + (v % 6000) as i64)
        }
    }

    /// A random tree no deeper than `depth`. At depth zero it is a leaf;
    /// otherwise each of the seven compound kinds and a leaf are equally likely,
    /// and children are built one level shallower.
    pub fn random(rng: &mut SeededRng, depth: usize) -> (r: Expr)
        ensures
            extends(final(rng).spec_log(), old(rng).spec_log()),
            random_from(final(rng).spec_log(), old(rng).spec_log().len(), depth as nat) == Some((r, final(rng).spec_log().len())),
            r.spec_depth() <= depth,
            params_in_range(r),
        decreases depth,
    {
        let ghost p0 = rng.spec_log().len();
        if depth == 0 {
            return Expr::random_leaf(rng);
        }
        let d = depth - 1;
        let kind = rng.below(8);
        let ghost l1 = rng.spec_log();
        if kind == 0 || kind == 1 {
            let a = Expr::random(rng, d);
            let ghost l2 = rng.spec_log();
            let b = Expr::random(rng, d);
            proof {
                lemma_random_extends(l2, rng.spec_log(), (p0 + 1) as nat, d as nat);
                assert(rng.spec_log()[p0 as int] == l1[p0 as int]);
            }
            if kind == 0 {
                Expr::Add(Box::new(a), Box::new(b))
            } else {
                Expr::Mul(Box::new(a), Box::new(b))
            }
        } else if kind <= 4 {
            let a = Expr::random(rng, d);
            proof {
                assert(rng.spec_log()[p0 as int] == l1[p0 as int]);
            }
            if kind == 2 {
                Expr::Sin(Box::new(a))
            } else if kind == 3 {
                Expr::Cos(Box::new(a))
            } else {
                Expr::Exp(Box::new(a))
            }
        } else if kind <= 6 {
            let a = Expr::random(rng, d);
            let ghost l2 = rng.spec_log();
            let v = if kind == 5 {
                rng.below(2500)
            } else {
                rng.below(6000)
            };
            proof {
                lemma_random_extends(l2, rng.spec_log(), (p0 + 1) as nat, d as nat);
                assert(rng.spec_log()[p0 as int] == l1[p0 as int]);
            }
            if kind == 5 {
                Expr::Pow(Box::new(a), EXPONENT_LOW + (v % 2500) as i64)
            } else {
                Expr::Scale(Box::new(a), CONST_LOW + (v % 6000) as i64)
            }
        } else {
            let r = Expr::random_leaf(rng);
            proof {
                assert(rng.spec_log()[p0 as int] == l1[p0 as int]);
            }
            r
        }
    }

    /// A mutated copy of this tree, seen at `level` (the root is at level 0).
    /// With a small chance the node is replaced by a fresh random tree no
    /// deeper than `min(level, MAX_FRESH_DEPTH)`; otherwise children are
    /// mutated, parameters are nudged, and a sine and a cosine may swap.
    pub fn mutate(&self, rng: &mut SeededRng, level: usize) -> (r: Expr)
        ensures
            extends(final(rng).spec_log(), old(rng).spec_log()),
            mutate_from(*self, level as nat, final(rng).spec_log(), old(rng).spec_log().len()) == Some((r, final(rng).spec_log().len())),
        decreases self,
    {
        let ghost p0 = rng.spec_log().len();
        let v = rng.below(100);
        let ghost l1 = rng.spec_log();
        if v < REPLACE_PERCENT {
            let d = if level < MAX_FRESH_DEPTH {
                level
            } else {
                MAX_FRESH_DEPTH
            };
            let r = Expr::random(rng, d);
            assert(rng.spec_log()[p0 as int] == l1[p0 as int]);
            return r;
        }
        let l = if level < MAX_FRESH_DEPTH {
            level + 1
        } else {
            level
        };
        let r = match self {
            Expr::Const(c) => Expr::Const(nudge(*c, rng, CONST_STEP)),
            Expr::X => Expr::X,
            Expr::Add(a, b) => {
                let ra = a.mutate(rng, l);
                let ghost l2 = rng.spec_log();
                let rb = b.mutate(rng, l);
                proof {
                    lemma_mutate_extends(**a, l as nat, l2, rng.spec_log(), (p0 + 1) as nat);
                }
                Expr::Add(Box::new(ra), Box::new(rb))
            },
            Expr::Mul(a, b) => {
                let ra = a.mutate(rng, l);
                let ghost l2 = rng.spec_log();
                let rb = b.mutate(rng, l);
                proof {
                    lemma_mutate_extends(**a, l as nat, l2, rng.spec_log(), (p0 + 1) as nat);
                }
                Expr::Mul(Box::new(ra), Box::new(rb))
            },
            Expr::Sin(a) => {
                let f = rng.below(100);
                let ghost l2 = rng.spec_log();
                if f < FLIP_PERCENT {
                    Expr::Cos(Box::new(a.deep_copy()))
                } else {
                    let ra = a.mutate(rng, l);
                    assert(rng.spec_log()[p0 + 1 as int] == l2[p0 + 1 as int]);
                    Expr::Sin(Box::new(ra))
                }
            },
            Expr::Cos(a) => {
                let f = rng.below(100);
                let ghost l2 = rng.spec_log();
                if f < FLIP_PERCENT {
                    Expr::Sin(Box::new(a.deep_copy()))
                } else {
                    let ra = a.mutate(rng, l);
                    assert(rng.spec_log()[p0 + 1 as int] == l2[p0 + 1 as int]);
                    Expr::Cos(Box::new(ra))
                }
            },
            Expr::Exp(a) => Expr::Exp(Box::new(a.mutate(rng, l))),
            Expr::Pow(a, pw) => {
                let ra = a.mutate(rng, l);
                let ghost l2 = rng.spec_log();
                let v = nudge(*pw, rng, EXPONENT_STEP);
                proof {
                    lemma_mutate_extends(**a, l as nat, l2, rng.spec_log(), (p0 + 1) as nat);
                }
                Expr::Pow(Box::new(ra), v)
            },
            Expr::Scale(a, k) => {
                let ra = a.mutate(rng, l);
                let ghost l2 = rng.spec_log();
                let v = nudge(*k, rng, CONST_STEP);
                proof {
                    lemma_mutate_extends(**a, l as nat, l2, rng.spec_log(), (p0 + 1) as nat);
                }
                Expr::Scale(Box::new(ra), v)
            },
        };
        assert(rng.spec_log()[p0 as int] == l1[p0 as int]);
        r
    }

    /// A copy of this tree crossed with `donor`: with a small chance the donor
    /// whole; otherwise the crossing descends into the only child of a unary
    /// node or into one child of a binary node, chosen by a fair coin. Leaves
    /// and parameterised nodes are kept.
    pub fn crossover(&self, donor: &Expr, rng: &mut SeededRng) -> (r: Expr)
        ensures
            extends(final(rng).spec_log(), old(rng).spec_log()),
            crossover_from(*self, *donor, final(rng).spec_log(), old(rng).spec_log().len()) == Some((r, final(rng).spec_log().len())),
        decreases self,
    {
        let ghost p0 = rng.spec_log().len();
        let v = rng.below(100);
        let ghost l1 = rng.spec_log();
        if v < DONOR_PERCENT {
            return donor.deep_copy();
        }
        let r = match self {
            Expr::Add(a, b) => {
                let c = rng.below(2);
                let ghost l2 = rng.spec_log();
                if c == 0 {
                    let ra = a.crossover(donor, rng);
                    assert(rng.spec_log()[p0 + 1 as int] == l2[p0 + 1 as int]);
                    Expr::Add(Box::new(ra), Box::new(b.deep_copy()))
                } else {
                    let rb = b.crossover(donor, rng);
                    assert(rng.spec_log()[p0 + 1 as int] == l2[p0 + 1 as int]);
                    Expr::Add(Box::new(a.deep_copy()), Box::new(rb))
                }
            },
            Expr::Mul(a, b) => {
                let c = rng.below(2);
                let ghost l2 = rng.spec_log();
                if c == 0 {
                    let ra = a.crossover(donor, rng);
                    assert(rng.spec_log()[p0 + 1 as int] == l2[p0 + 1 as int]);
                    Expr::Mul(Box::new(ra), Box::new(b.deep_copy()))
                } else {
                    let rb = b.crossover(donor, rng);
                    assert(rng.spec_log()[p0 + 1 as int] == l2[p0 + 1 as int]);
                    Expr::Mul(Box::new(a.deep_copy()), Box::new(rb))
                }
            },
            Expr::Sin(a) => Expr::Sin(Box::new(a.crossover(donor, rng))),
            Expr::Cos(a) => Expr::Cos(Box::new(a.crossover(donor, rng))),
            Expr::Exp(a) => Expr::Exp(Box::new(a.crossover(donor, rng))),
            _ => self.deep_copy(),
        };
        assert(rng.spec_log()[p0 as int] == l1[p0 as int]);
        r
    }

    /// A short local search: `steps` rounds, each of which mutates the current
    /// tree at the root level by a fair coin.
    pub fn local_opt(&self, rng: &mut SeededRng, steps: usize) -> (r: Expr)
        ensures
            extends(final(rng).spec_log(), old(rng).spec_log()),
            local_opt_from(*self, steps as nat, final(rng).spec_log(), old(rng).spec_log().len()) == Some((r, final(rng).spec_log().len())),
        decreases steps,
    {
        if steps == 0 {
            return self.deep_copy();
        }
        let ghost p0 = rng.spec_log().len();
        let c = rng.below(2);
        let ghost l1 = rng.spec_log();
        if c == 0 {
            let m = self.mutate(rng, 0);
            let ghost l2 = rng.spec_log();
            let r = m.local_opt(rng, steps - 1);
            proof {
                lemma_mutate_extends(*self, 0, l2, rng.spec_log(), (p0 + 1) as nat);
                assert(rng.spec_log()[p0 as int] == l1[p0 as int]);
            }
            r
        } else {
            let r = self.local_opt(rng, steps - 1);
            assert(rng.spec_log()[p0 as int] == l1[p0 as int]);
            r
        }
    }

    /// Whether an exponent, in thousandths, is a whole number. A power node
    /// with a negative base and an exponent that is not whole is evaluated on
    /// the magnitude of the base, so that evaluation stays real.
    pub fn exponent_is_whole(p: i64) -> (r: bool)
        ensures
            r == (p as int % PARAM_SCALE as int == 0),
    {
        let m: i128 = p as i128 % 1000;
        m == 0
    }

    /// The text form of this tree.
    pub fn render(&self) -> (r: String)
        ensures
            r@ == render_spec(*self),
    {
        let mut s = String::new();
        self.render_into(&mut s);
        assert(s@ =~= render_spec(*self));
        s
    }

    /// Appends the text form of this tree to `out`.
    pub fn render_into(&self, out: &mut String)
        ensures
            final(out)@ == old(out)@ + render_spec(*self),
        decreases self,
    {
        let ghost o = out@;
        match self {
            Expr::Const(c) => {
                push_decimal(out, *c);
            },
            Expr::X => {
                push_char(out, 'x');
            },
            Expr::Add(a, b) => {
                push_char(out, '(');
                a.render_into(out);
                push_char(out, '+');
                b.render_into(out);
                push_char(out, ')');
            },
            Expr::Mul(a, b) => {
                push_char(out, '(');
                a.render_into(out);
                push_char(out, '*');
                b.render_into(out);
                push_char(out, ')');
            },
            Expr::Sin(a) => {
                push_char(out, 's');
                push_char(out, 'i');
                push_char(out, 'n');
                push_char(out, '(');
                a.render_into(out);
                push_char(out, ')');
            },
            Expr::Cos(a) => {
                push_char(out, 'c');
                push_char(out, 'o');
                push_char(out, 's');
                push_char(out, '(');
                a.render_into(out);
                push_char(out, ')');
            },
            Expr::Exp(a) => {
                push_char(out, 'e');
                push_char(out, 'x');
                push_char(out, 'p');
                push_char(out, '(');
                a.render_into(out);
                push_char(out, ')');
            },
            Expr::Pow(a, p) => {
                push_char(out, '(');
                a.render_into(out);
                push_char(out, ')');
                push_char(out, '^');
                push_decimal(out, *p);
            },
            Expr::Scale(a, k) => {
                push_char(out, '(');
                push_decimal(out, *k);
                push_char(out, '*');
                a.render_into(out);
                push_char(out, ')');
            },
        }
        assert(out@ =~= o + render_spec(*self));
    }
}

/// The decimal digit `d`.
fn digit(d: u64) -> (c: char)
    requires
        d < 10,
    ensures
        c == digit_char(d as nat),
{
    if d == 0 {
        '0'
    } else if d == 1 {
        '1'
    } else if d == 2 {
        '2'
    } else if d == 3 {
        '3'
    } else if d == 4 {
        '4'
    } else if d == 5 {
        '5'
    } else if d == 6 {
        '6'
    } else if d == 7 {
        '7'
    } else if d == 8 {
        '8'
    } else {
        '9'
    }
}

/// Appends the decimal numeral of `n`.
fn push_digits(out: &mut String, n: u64)
    ensures
        final(out)@ == old(out)@ + digits(n as nat),
    decreases n,
{
    if n >= 10 {
        push_digits(out, n / 10);
    }
    push_char(out, digit(n % 10));
    proof {
        if n >= 10 {
            assert(out@ =~= old(out)@ + digits(n as nat));
        } else {
            assert(out@ =~= old(out)@ + digits(n as nat));
        }
    }
}

/// Appends a parameter in thousandths as a decimal with three places.
fn push_decimal(out: &mut String, v: i64)
    ensures
        final(out)@ == old(out)@ + decimal_text(v),
{
    let ghost o = out@;
    let a: u64 = if v < 0 {
        (0i128 - v as i128) as u64
    } else {
        v as u64
    };
    assert(a == abs_int(v as int));
    if v < 0 {
        push_char(out, '-');
    }
    push_digits(out, a / 1000);
    push_char(out, '.');
    push_char(out, digit((a / 100) % 10));
    push_char(out, digit((a / 10) % 10));
    push_char(out, digit(a % 10));
    assert(out@ =~= o + decimal_text(v));
}

/// `v` moved by a uniform draw from `-step..step`; kept as it is where the
/// move would leave the range of `i64`.
fn nudge(v: i64, rng: &mut SeededRng, step: i64) -> (r: i64)
    requires
        0 < step <= 1000,
    ensures
        extends(final(rng).spec_log(), old(rng).spec_log()),
        nudge_from(v, step, final(rng).spec_log(), old(rng).spec_log().len()) == Some(
            (r, final(rng).spec_log().len()),
        ),
{
    let w = rng.below((2 * step) as u64);
    let d = w as i64 - step;
    match v.checked_add(d) {
        Some(s) => s,
        None => v,
    }
}

fn one_more(a: usize) -> (r: usize)
    ensures
        r == min_nat((a + 1) as nat, usize::MAX as nat),
{
    if a == usize::MAX {
        a
    } else {
        a + 1
    }
}

fn sum_sizes(a: usize, b: usize) -> (r: usize)
    ensures
        r == min_nat((a + b + 1) as nat, usize::MAX as nat),
{
    if b == usize::MAX || a >= usize::MAX - b - 1 {
        usize::MAX
    } else {
        a + b + 1
    }
}

fn larger(a: usize, b: usize) -> (r: usize)
    ensures
        r == max_nat(a as nat, b as nat),
{
    if a >= b {
        a
    } else {
        b
    }
}

} // verus!
