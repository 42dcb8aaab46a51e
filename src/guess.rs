//! Finding a hidden number in `0..=99` by binary search on feedback.

use core::cmp::Ordering;
use crate::rng::SeededRng;
use vstd::prelude::*;

verus! {

/// How a guess `n` compares with the hidden `target`.
pub open spec fn order_of(n: i32, target: i32) -> Ordering {
    if n < target {
        Ordering::Less
    } else if n > target {
        Ordering::Greater
    } else {
        Ordering::Equal
    }
}

/// `feedback` answers every guess as `guess.cmp(&target)` would.
pub open spec fn answers_for<F: Fn(i32) -> Ordering>(feedback: F, target: i32) -> bool {
    forall|n: i32, o: Ordering| #[trigger] feedback.ensures((n,), o) ==> o == order_of(n, target)
}

/// What the search ends on for a feedback that answers for `target`: the
/// target itself inside `0..=99`, else the bound of the range it fell past
/// (0 below it, 100 above it).
pub open spec fn found_for(target: i32) -> i32 {
    if target < 0 {
        0
    } else if target > 99 {
        100
    } else {
        target
    }
}

/// Binary search over `0..=99` guided by `feedback`, which tells whether a
/// guess is below (`Less`), above (`Greater`) or at (`Equal`) the hidden
/// number. Returns the guess answered `Equal`, or, if none was, where the
/// search range closed.
pub fn guess_number<F: Fn(i32) -> Ordering>(feedback: F) -> (r: i32)
    requires
        forall|n: i32| #[trigger] feedback.requires((n,)),
    ensures
        0 <= r <= 100,
        forall|t: i32| answers_for(feedback, t) ==> r == found_for(t),
{
    let mut low: i32 = 0;
    let mut high: i32 = 99;
    while low <= high
        invariant
            0 <= low <= 100,
            -1 <= high <= 99,
            low <= high + 1,
            forall|n: i32| #[trigger] feedback.requires((n,)),
            forall|t: i32|
                answers_for(feedback, t) ==> {
                    &&& (0 <= t <= 99 ==> low <= t <= high)
                    &&& (t < 0 ==> low == 0)
                    &&& (t > 99 ==> high == 99)
                },
        decreases high - low + 1,
    {
        let mid = low + (high - low) / 2;
        let o = feedback(mid);
        match o {
            Ordering::Less => {
                assert forall|t: i32| answers_for(feedback, t) implies t > mid by {
                    assert(feedback.ensures((mid,), o));
                }
                low = mid + 1;
            },
            Ordering::Greater => {
                assert forall|t: i32| answers_for(feedback, t) implies t < mid by {
                    assert(feedback.ensures((mid,), o));
                }
                high = mid - 1;
            },
            Ordering::Equal => {
                assert forall|t: i32| answers_for(feedback, t) implies t == mid by {
                    assert(feedback.ensures((mid,), o));
                }
                return mid;
            },
        }
    }
    low
}

/// Finds `target` by `guess_number`, answering each guess by comparison.
pub fn guess(target: i32) -> (r: i32)
    ensures
        r == found_for(target),
{
    let feedback = |n: i32| -> (o: Ordering)
        ensures
            o == order_of(n, target),
        {
            if n < target {
                Ordering::Less
            } else if n > target {
                Ordering::Greater
            } else {
                Ordering::Equal
            }
        };
    let r = guess_number(feedback);
    assert(answers_for(feedback, target));
    r
}

/// Rounds of the randomised search.
pub const GUESS_ROUNDS: usize = 20;

/// The next guess after a move of `delta` toward `target`, kept in `0..=99`.
pub open spec fn stepped(guess: i32, target: i32, delta: i32) -> int {
    if guess < target {
        if guess + delta > 99 {
            99
        } else {
            guess + delta
        }
    } else {
        if guess - delta < 0 {
            0
        } else {
            guess - delta
        }
    }
}

/// Moves `guess` by `delta` toward `target` (up when below, down when
/// above), without leaving `0..=99`.
pub fn step_toward(guess: i32, target: i32, delta: i32) -> (r: i32)
    requires
        0 <= guess <= 99,
        0 <= delta,
    ensures
        r == stepped(guess, target, delta),
        0 <= r <= 99,
{
    if guess < target {
        if delta > 99 - guess {
            99
        } else {
            guess + delta
        }
    } else {
        if delta > guess {
            0
        } else {
            guess - delta
        }
    }
}

/// A randomised search for `target`, deterministic for a given `seed`: a
/// first guess drawn from `0..100`, then up to twenty moves toward the
/// target by a random amount in `1..=step`, the step halving each round
/// down to 1. Returns as soon as the guess hits the target.
pub fn probabilistic_guess(target: i32, seed: u64) -> (r: i32)
    ensures
        0 <= r <= 99,
{
    let mut rng = SeededRng::from_seed(seed);
    let mut guess = rng.in_range_i32(0, 100);
    let mut step: i32 = 10;
    let mut round: usize = 0;
    while round < GUESS_ROUNDS
        invariant
            0 <= guess <= 99,
            1 <= step <= 10,
        decreases GUESS_ROUNDS - round,
    {
        if guess == target {
            return guess;
        }
        let delta = rng.in_closed_range_i32(1, step);
        guess = step_toward(guess, target, delta);
        step = if step / 2 > 1 {
            step / 2
        } else {
            1
        };
        round = round + 1;
    }
    guess
}

} // verus!
