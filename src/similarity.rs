//! Trigram similarity of strings: shared distinct trigrams over all distinct
//! trigrams (Jaccard index), kept as an exact fraction.

use crate::text::chars_of;
use vstd::prelude::*;

verus! {

/// All three-character windows of `s`, from left to right.
pub open spec fn windows(s: Seq<char>) -> Seq<Seq<char>> {
    if s.len() < 3 {
        Seq::empty()
    } else {
        Seq::new((s.len() - 2) as nat, |i: int| s.subrange(i, i + 3))
    }
}

/// `xs` without repeats, each kept at its first occurrence.
pub open spec fn distinct(xs: Seq<Seq<char>>) -> Seq<Seq<char>>
    decreases xs.len(),
{
    if xs.len() == 0 {
        xs
    } else {
        let d = distinct(xs.drop_last());
        if d.contains(xs.last()) {
            d
        } else {
            d.push(xs.last())
        }
    }
}

/// The distinct trigrams of `s`.
pub open spec fn trigrams(s: Seq<char>) -> Seq<Seq<char>> {
    distinct(windows(s))
}

/// How many elements of `a` occur in `b`.
pub open spec fn shared_count(a: Seq<Seq<char>>, b: Seq<Seq<char>>) -> nat
    decreases a.len(),
{
    if a.len() == 0 {
        0
    } else {
        shared_count(a.drop_last(), b) + if b.contains(a.last()) {
            1nat
        } else {
            0nat
        }
    }
}

/// The trigram similarity of `a` and `b` as (numerator, denominator): shared
/// trigrams over all trigrams; 1 when neither has a trigram.
pub open spec fn similarity(a: Seq<char>, b: Seq<char>) -> (nat, nat) {
    let ta = trigrams(a);
    let tb = trigrams(b);
    let shared = shared_count(ta, tb);
    let union = ta.len() + tb.len() - shared;
    if union <= 0 {
        (1, 1)
    } else {
        (shared, union as nat)
    }
}

proof fn lemma_distinct_len(xs: Seq<Seq<char>>)
    ensures
        distinct(xs).len() <= xs.len(),
    decreases xs.len(),
{
    if xs.len() > 0 {
        lemma_distinct_len(xs.drop_last());
    }
}

proof fn lemma_shared_le(a: Seq<Seq<char>>, b: Seq<Seq<char>>)
    ensures
        shared_count(a, b) <= a.len(),
    decreases a.len(),
{
    if a.len() > 0 {
        lemma_shared_le(a.drop_last(), b);
    }
}

/// Whether `a` and `b` hold the same characters.
pub fn same_chars(a: &Vec<char>, b: &Vec<char>) -> (r: bool)
    ensures
        r == (a@ == b@),
{
    if a.len() != b.len() {
        return false;
    }
    let mut i: usize = 0;
    while i < a.len()
        invariant
            i <= a.len(),
            a.len() == b.len(),
            forall|j: int| 0 <= j < i ==> a@[j] == b@[j],
        decreases a.len() - i,
    {
        if a[i] != b[i] {
            return false;
        }
        i = i + 1;
    }
    assert(a@ =~= b@);
    true
}

/// The strings of `v` as character sequences.
pub open spec fn seqs_view(v: Seq<Vec<char>>) -> Seq<Seq<char>> {
    v.map_values(|x: Vec<char>| x@)
}

/// Whether `w` is among `list`.
pub fn holds(list: &Vec<Vec<char>>, w: &Vec<char>) -> (r: bool)
    ensures
        r == seqs_view(list@).contains(w@),
{
    let ghost lv = seqs_view(list@);
    let mut i: usize = 0;
    while i < list.len()
        invariant
            i <= list.len(),
            lv == seqs_view(list@),
            forall|j: int| 0 <= j < i ==> lv[j] != w@,
        decreases list.len() - i,
    {
        if same_chars(&list[i], w) {
            assert(lv[i as int] == w@);
            return true;
        }
        i = i + 1;
    }
    false
}

/// The distinct trigrams of `cs`, at their first occurrences.
pub fn trigrams_of(cs: &Vec<char>) -> (r: Vec<Vec<char>>)
    ensures
        seqs_view(r@) == trigrams(cs@),
{
    let ghost ws = windows(cs@);
    let mut out: Vec<Vec<char>> = Vec::new();
    if cs.len() < 3 {
        assert(seqs_view(out@) =~= Seq::<Seq<char>>::empty());
        return out;
    }
    let n = cs.len() - 2;
    let mut i: usize = 0;
    assert(seqs_view(out@) =~= distinct(ws.subrange(0, 0)));
    while i < n
        invariant
            i <= n,
            n == cs.len() - 2,
            cs.len() >= 3,
            ws == windows(cs@),
            seqs_view(out@) == distinct(ws.subrange(0, i as int)),
        decreases n - i,
    {
        let mut w: Vec<char> = Vec::new();
        w.push(cs[i]);
        w.push(cs[i + 1]);
        w.push(cs[i + 2]);
        assert(w@ =~= cs@.subrange(i as int, i + 3));
        assert(ws.subrange(0, i + 1 as int).drop_last() =~= ws.subrange(0, i as int));
        assert(ws.subrange(0, i + 1 as int).last() == w@);
        let ghost before = seqs_view(out@);
        if !holds(&out, &w) {
            out.push(w);
            assert(seqs_view(out@) =~= before.push(ws[i as int]));
        }
        i = i + 1;
    }
    assert(ws.subrange(0, n as int) =~= ws);
    out
}

/// The trigram similarity of `a` and `b` as (numerator, denominator).
pub fn trigram_similarity(a: &str, b: &str) -> (r: (usize, usize))
    requires
        a@.len() + b@.len() <= usize::MAX,
    ensures
        (r.0 as nat, r.1 as nat) == similarity(a@, b@),
        r.1 > 0,
{
    let ca = chars_of(a);
    let cb = chars_of(b);
    let ta = trigrams_of(&ca);
    let tb = trigrams_of(&cb);
    proof {
        lemma_distinct_len(windows(a@));
        lemma_distinct_len(windows(b@));
    }
    let ghost va = seqs_view(ta@);
    let ghost vb = seqs_view(tb@);
    let mut shared: usize = 0;
    let mut i: usize = 0;
    while i < ta.len()
        invariant
            i <= ta.len(),
            va == seqs_view(ta@),
            vb == seqs_view(tb@),
            shared == shared_count(va.subrange(0, i as int), vb),
            shared <= i,
        decreases ta.len() - i,
    {
        assert(va.subrange(0, i + 1 as int).drop_last() =~= va.subrange(0, i as int));
        if holds(&tb, &ta[i]) {
            shared = shared + 1;
        }
        i = i + 1;
    }
    assert(va.subrange(0, ta.len() as int) =~= va);
    let total = ta.len() + tb.len() - shared;
    if total == 0 {
        (1, 1)
    } else {
        (shared, total)
    }
}

/// `x` is a strictly larger fraction than `y` (denominators positive).
pub open spec fn frac_gt(x: (nat, nat), y: (nat, nat)) -> bool {
    x.0 * y.1 > y.0 * x.1
}

/// Whether the fraction `x` is strictly larger than `y`.
pub fn fraction_greater(x: (usize, usize), y: (usize, usize)) -> (r: bool)
    ensures
        r == frac_gt((x.0 as nat, x.1 as nat), (y.0 as nat, y.1 as nat)),
{
    let (a, b, c, d) = (x.0 as u128, y.1 as u128, y.0 as u128, x.1 as u128);
    assert(a * b <= u128::MAX && c * d <= u128::MAX) by (nonlinear_arith)
        requires
            a <= usize::MAX,
            b <= usize::MAX,
            c <= usize::MAX,
            d <= usize::MAX,
            usize::MAX < 0x1_0000_0000_0000_0000,
    ;
    a * b > c * d
}

} // verus!
