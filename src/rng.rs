//! Seeded randomness: every stochastic decision of the search draws from one
//! owned generator, so a seed fixes the whole run.

use rand::Rng;
use rand::SeedableRng;
use rand_chacha::ChaCha8Rng;
use std::collections::hash_map::DefaultHasher;
use std::hash::Hasher;
use vstd::std_specs::hash::DefaultHasherAdditionalSpecFns;
use vstd::string::StringSliceAdditionalSpecFns;
use vstd::prelude::*;

verus! {

#[verifier::external_type_specification]
#[verifier::external_body]
pub struct ExChaCha8Rng(ChaCha8Rng);

/// Relies on `rand_chacha::ChaCha8Rng::seed_from_u64` (rand_core 0.6): the
/// generator's stream is fixed by the seed. Nothing is stated of the stream.
#[verifier::external_body]
fn chacha_from_seed(seed: u64) -> ChaCha8Rng {
    ChaCha8Rng::seed_from_u64(seed)
}

/// Relies on rand 0.8 `Rng::gen_range` over `lo..hi` for `u64`: a value in
/// the half-open range; it panics on an empty range, which `requires` excludes.
#[verifier::external_body]
fn chacha_below(rng: &mut ChaCha8Rng, lo: u64, hi: u64) -> (r: u64)
    requires
        lo < hi,
    ensures
        lo <= r < hi,
{
    rng.gen_range(lo..hi)
}

/// Relies on rand 0.8 `Rng::gen_range` over `lo..hi` for `i32`: a value in
/// the half-open range; it panics on an empty range, which `requires` excludes.
#[verifier::external_body]
fn chacha_i32(rng: &mut ChaCha8Rng, lo: i32, hi: i32) -> (r: i32)
    requires
        lo < hi,
    ensures
        lo <= r < hi,
{
    rng.gen_range(lo..hi)
}

/// Relies on rand 0.8 `Rng::gen_range` over `lo..=hi` for `i32`: a value in
/// the closed range; it panics on an empty range, which `requires` excludes.
#[verifier::external_body]
fn chacha_i32_inclusive(rng: &mut ChaCha8Rng, lo: i32, hi: i32) -> (r: i32)
    requires
        lo <= hi,
    ensures
        lo <= r <= hi,
{
    rng.gen_range(lo..=hi)
}

/// `new` is `old` with one more draw, below `n`, at its end.
pub open spec fn drew(old: Seq<u64>, new: Seq<u64>, n: nat) -> bool {
    new.len() == old.len() + 1 && new.drop_last() == old && new.last() < n
}

/// `es` begins with `ds`: a later state of the same record of draws.
pub open spec fn extends(es: Seq<u64>, ds: Seq<u64>) -> bool {
    ds.len() <= es.len() && forall|i: int| 0 <= i < ds.len() ==> es[i] == ds[i]
}

/// Later states of a record of draws extend earlier ones.
pub proof fn lemma_extends_trans(a: Seq<u64>, b: Seq<u64>, c: Seq<u64>)
    requires
        extends(b, a),
        extends(c, b),
    ensures
        extends(c, a),
{
}

/// A deterministic source of random draws, derived from a 64-bit seed.
///
/// The same seed and the same sequence of calls give the same draws. Every
/// uniform draw made through `below` (and the methods built on it) is
/// recorded, so that what a randomised operation returns can be stated as a
/// function of the draws it made.
pub struct SeededRng {
    inner: ChaCha8Rng,
    log: Ghost<Seq<u64>>,
}

impl SeededRng {
    /// The uniform draws made so far, in order.
    pub closed spec fn spec_log(&self) -> Seq<u64> {
        self.log@
    }

    /// A generator whose whole sequence of draws is fixed by `seed`.
    pub fn from_seed(seed: u64) -> (r: Self)
        ensures
            r.spec_log() == Seq::<u64>::empty(),
    {
        SeededRng { inner: chacha_from_seed(seed), log: Ghost(Seq::empty()) }
    }

    /// A uniform draw from `0..n`, recorded.
    pub fn below(&mut self, n: u64) -> (r: u64)
        requires
            n > 0,
        ensures
            r < n,
            drew(old(self).spec_log(), final(self).spec_log(), n as nat),
            final(self).spec_log().last() == r,
    {
        let r = chacha_below(&mut self.inner, 0, n);
        self.log = Ghost(self.log@.push(r));
        assert(self.log@.drop_last() =~= old(self).log@);
        r
    }

    /// A uniform index into a collection of `len` elements, recorded.
    pub fn index(&mut self, len: usize) -> (r: usize)
        requires
            len > 0,
        ensures
            r < len,
            drew(old(self).spec_log(), final(self).spec_log(), len as nat),
            final(self).spec_log().last() == r,
    {
        self.below(len as u64) as usize
    }

    /// A uniform draw from `lo..hi` of `i32`. Not recorded.
    pub fn in_range_i32(&mut self, lo: i32, hi: i32) -> (r: i32)
        requires
            lo < hi,
        ensures
            lo <= r < hi,
            final(self).spec_log() == old(self).spec_log(),
    {
        chacha_i32(&mut self.inner, lo, hi)
    }

    /// A uniform draw from `lo..=hi` of `i32`. Not recorded.
    pub fn in_closed_range_i32(&mut self, lo: i32, hi: i32) -> (r: i32)
        requires
            lo <= hi,
        ensures
            lo <= r <= hi,
            final(self).spec_log() == old(self).spec_log(),
    {
        chacha_i32_inclusive(&mut self.inner, lo, hi)
    }
}

/// A seed derived from the text of a formula, so that a follow-up search
/// can start from the same place: the standard hasher over the text's bytes
/// followed by the `0xff` terminator, as hashing a `str` writes them.
pub fn seed_from_formula(formula: &str) -> (r: u64)
    ensures
        r == DefaultHasher::spec_finish(seq![formula.spec_bytes(), seq![0xffu8]]),
{
    let mut h = DefaultHasher::new();
    h.write(formula.as_bytes());
    let mut end: Vec<u8> = Vec::new();
    end.push(0xff);
    h.write(end.as_slice());
    assert(h@ =~= seq![formula.spec_bytes(), seq![0xffu8]]);
    h.finish()
}

} // verus!
