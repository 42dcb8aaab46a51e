//! Linear equations in one variable `x`, such as `2x + 3 = 7`: splitting
//! each side into signed terms. Reading the numbers and solving is the
//! caller's business.

use crate::text::{chars_of, string_from_chars};
use vstd::prelude::*;

verus! {

/// A signed term of one side: whether it is subtracted, whether it holds
/// `x`, and its text (without the `x`s).
pub struct LinearTerm {
    pub negative: bool,
    pub has_x: bool,
    pub text: String,
}

/// A term as plain values: (negative, has_x, text).
pub type TermSpec = (bool, bool, Seq<char>);

impl LinearTerm {
    pub open spec fn as_spec(self) -> TermSpec {
        (self.negative, self.has_x, self.text@)
    }
}

/// The terms as plain values.
pub open spec fn terms_view(ts: Seq<LinearTerm>) -> Seq<TermSpec> {
    ts.map_values(|t: LinearTerm| t.as_spec())
}

/// `s` without its `x`s.
pub open spec fn without_x(s: Seq<char>) -> Seq<char>
    decreases s.len(),
{
    if s.len() == 0 {
        s
    } else if s.last() == 'x' {
        without_x(s.drop_last())
    } else {
        without_x(s.drop_last()).push(s.last())
    }
}

/// The term that the text `cur` read under the given sign makes, if any:
/// one with `x` if `cur` holds an `x`, a constant if it is otherwise not
/// empty, none if it is empty.
pub open spec fn finish_term(done: Seq<TermSpec>, negative: bool, cur: Seq<char>) -> Seq<TermSpec> {
    if cur.contains('x') {
        done.push((negative, true, without_x(cur)))
    } else if cur.len() > 0 {
        done.push((negative, false, cur))
    } else {
        done
    }
}

/// Reading a side left to right: the terms finished so far, the sign of
/// the term being read, and its text so far. A `+` or `-` ends the term
/// being read and gives the sign of the next.
pub open spec fn scan_side(s: Seq<char>) -> (Seq<TermSpec>, bool, Seq<char>)
    decreases s.len(),
{
    if s.len() == 0 {
        (Seq::empty(), false, Seq::empty())
    } else {
        let (done, neg, cur) = scan_side(s.drop_last());
        let c = s.last();
        if c == '+' || c == '-' {
            (finish_term(done, neg, cur), c == '-', Seq::empty())
        } else {
            (done, neg, cur.push(c))
        }
    }
}

/// The signed terms of one side of an equation.
pub open spec fn side_terms(s: Seq<char>) -> Seq<TermSpec> {
    let (done, neg, cur) = scan_side(s);
    finish_term(done, neg, cur)
}

/// `s` without its spaces.
pub open spec fn without_spaces(s: Seq<char>) -> Seq<char>
    decreases s.len(),
{
    if s.len() == 0 {
        s
    } else if s.last() == ' ' {
        without_spaces(s.drop_last())
    } else {
        without_spaces(s.drop_last()).push(s.last())
    }
}

/// How many `=` signs `s` holds.
pub open spec fn equals_count(s: Seq<char>) -> nat
    decreases s.len(),
{
    if s.len() == 0 {
        0
    } else {
        equals_count(s.drop_last()) + if s.last() == '=' {
            1nat
        } else {
            0nat
        }
    }
}

/// The part of `s` before its first `=`.
pub open spec fn before_equals(s: Seq<char>) -> Seq<char>
    decreases s.len(),
{
    if s.len() == 0 {
        s
    } else if s[0] == '=' {
        Seq::empty()
    } else {
        seq![s[0]] + before_equals(s.drop_first())
    }
}

/// The part of `s` after its first `=`.
pub open spec fn after_equals(s: Seq<char>) -> Seq<char>
    decreases s.len(),
{
    if s.len() == 0 {
        s
    } else if s[0] == '=' {
        s.drop_first()
    } else {
        after_equals(s.drop_first())
    }
}

/// The terms of both sides of an equation with exactly one `=`, spaces
/// removed; `None` for any other number of `=`.
pub open spec fn equation_sides(eq: Seq<char>) -> Option<(Seq<TermSpec>, Seq<TermSpec>)> {
    if equals_count(eq) == 1 {
        Some(
            (
                side_terms(without_spaces(before_equals(eq))),
                side_terms(without_spaces(after_equals(eq))),
            ),
        )
    } else {
        None
    }
}

/// Appends the term that `cur` makes, if any.
fn finish(out: &mut Vec<LinearTerm>, negative: bool, cur: &Vec<char>)
    ensures
        terms_view(final(out)@) == finish_term(terms_view(old(out)@), negative, cur@),
{
    let ghost before = terms_view(out@);
    let mut has_x = false;
    let mut text: Vec<char> = Vec::new();
    let mut i: usize = 0;
    while i < cur.len()
        invariant
            i <= cur.len(),
            has_x == cur@.subrange(0, i as int).contains('x'),
            text@ == without_x(cur@.subrange(0, i as int)),
        decreases cur.len() - i,
    {
        let ghost sub = cur@.subrange(0, i + 1 as int);
        assert(sub.drop_last() =~= cur@.subrange(0, i as int));
        assert(sub.last() == cur@[i as int]);
        if cur[i] == 'x' {
            has_x = true;
            assert(sub.contains('x')) by {
                assert(sub[i as int] == 'x');
            }
        } else {
            text.push(cur[i]);
            assert(sub.contains('x') == cur@.subrange(0, i as int).contains('x')) by {
                if sub.contains('x') {
                    let k = choose|k: int| 0 <= k < sub.len() && sub[k] == 'x';
                    assert(cur@.subrange(0, i as int)[k] == 'x');
                }
                if cur@.subrange(0, i as int).contains('x') {
                    let k = choose|k: int| 0 <= k < i && cur@.subrange(0, i as int)[k] == 'x';
                    assert(sub[k] == 'x');
                }
            }
        }
        i = i + 1;
    }
    assert(cur@.subrange(0, cur.len() as int) =~= cur@);
    if has_x {
        let t = LinearTerm { negative, has_x: true, text: string_from_chars(&text) };
        out.push(t);
        assert(terms_view(out@) =~= before.push((negative, true, without_x(cur@))));
    } else if cur.len() > 0 {
        let t = LinearTerm { negative, has_x: false, text: string_from_chars(&text) };
        proof {
            lemma_without_x_id(cur@);
        }
        out.push(t);
        assert(terms_view(out@) =~= before.push((negative, false, cur@)));
    }
}

proof fn lemma_without_x_id(s: Seq<char>)
    requires
        !s.contains('x'),
    ensures
        without_x(s) == s,
    decreases s.len(),
{
    if s.len() > 0 {
        assert(!s.drop_last().contains('x')) by {
            if s.drop_last().contains('x') {
                let k = choose|k: int| 0 <= k < s.len() - 1 && s.drop_last()[k] == 'x';
                assert(s[k] == 'x');
            }
        }
        lemma_without_x_id(s.drop_last());
        assert(s.last() != 'x') by {
            if s.last() == 'x' {
                assert(s[s.len() - 1] == 'x');
            }
        }
        assert(s.drop_last().push(s.last()) =~= s);
    }
}

/// The signed terms of one side (spaces already removed).
pub fn terms_of_side(s: &Vec<char>) -> (r: Vec<LinearTerm>)
    ensures
        terms_view(r@) == side_terms(s@),
{
    let mut done: Vec<LinearTerm> = Vec::new();
    let mut neg = false;
    let mut cur: Vec<char> = Vec::new();
    let mut i: usize = 0;
    assert(terms_view(done@) =~= Seq::<TermSpec>::empty());
    while i < s.len()
        invariant
            i <= s.len(),
            (terms_view(done@), neg, cur@) == scan_side(s@.subrange(0, i as int)),
        decreases s.len() - i,
    {
        let ghost sub = s@.subrange(0, i + 1 as int);
        assert(sub.drop_last() =~= s@.subrange(0, i as int));
        assert(sub.last() == s@[i as int]);
        let c = s[i];
        if c == '+' || c == '-' {
            finish(&mut done, neg, &cur);
            neg = c == '-';
            cur = Vec::new();
            assert(cur@ =~= Seq::<char>::empty());
        } else {
            cur.push(c);
        }
        i = i + 1;
    }
    assert(s@.subrange(0, s.len() as int) =~= s@);
    finish(&mut done, neg, &cur);
    done
}

/// The characters `lo..hi` of `cs` without spaces.
pub(crate) fn unspaced(cs: &Vec<char>, lo: usize, hi: usize) -> (r: Vec<char>)
    requires
        lo <= hi <= cs.len(),
    ensures
        r@ == without_spaces(cs@.subrange(lo as int, hi as int)),
{
    let mut out: Vec<char> = Vec::new();
    let mut i = lo;
    assert(out@ =~= without_spaces(cs@.subrange(lo as int, lo as int)));
    while i < hi
        invariant
            lo <= i <= hi,
            hi <= cs.len(),
            out@ == without_spaces(cs@.subrange(lo as int, i as int)),
        decreases hi - i,
    {
        let ghost sub = cs@.subrange(lo as int, i + 1 as int);
        assert(sub.drop_last() =~= cs@.subrange(lo as int, i as int));
        assert(sub.last() == cs@[i as int]);
        if cs[i] != ' ' {
            out.push(cs[i]);
        }
        i = i + 1;
    }
    out
}

proof fn lemma_equals_split(s: Seq<char>, p: int)
    requires
        0 <= p < s.len(),
        s[p] == '=',
        forall|j: int| 0 <= j < p ==> s[j] != '=',
    ensures
        before_equals(s) == s.subrange(0, p),
        after_equals(s) == s.subrange(p + 1, s.len() as int),
    decreases p,
{
    if p > 0 {
        lemma_equals_split(s.drop_first(), p - 1);
        assert(seq![s[0]] + s.drop_first().subrange(0, p - 1) =~= s.subrange(0, p));
        assert(s.drop_first().subrange(p, s.len() - 1) =~= s.subrange(p + 1, s.len() as int));
    } else {
        assert(s.drop_first() =~= s.subrange(1, s.len() as int));
    }
}

/// Splits an equation with exactly one `=` into the signed terms of its two
/// sides, spaces removed; `None` if it holds no `=` or more than one.
pub fn equation_terms(eq: &str) -> (r: Option<(Vec<LinearTerm>, Vec<LinearTerm>)>)
    ensures
        r is Some <==> equation_sides(eq@) is Some,
        r matches Some((a, b)) ==> equation_sides(eq@) == Some((terms_view(a@), terms_view(b@))),
{
    let cs = chars_of(eq);
    let mut count: usize = 0;
    let mut first: usize = 0;
    let mut i: usize = 0;
    while i < cs.len()
        invariant
            i <= cs.len(),
            count == equals_count(cs@.subrange(0, i as int)),
            count <= i,
            count == 0 ==> forall|j: int| 0 <= j < i ==> cs@[j] != '=',
            count > 0 ==> first < i && cs@[first as int] == '=' && forall|j: int|
                0 <= j < first ==> cs@[j] != '=',
        decreases cs.len() - i,
    {
        let ghost sub = cs@.subrange(0, i + 1 as int);
        assert(sub.drop_last() =~= cs@.subrange(0, i as int));
        assert(sub.last() == cs@[i as int]);
        if cs[i] == '=' {
            if count == 0 {
                first = i;
            }
            count = count + 1;
        }
        i = i + 1;
    }
    assert(cs@.subrange(0, cs.len() as int) =~= cs@);
    if count != 1 {
        return None;
    }
    proof {
        lemma_equals_split(cs@, first as int);
    }
    let left = unspaced(&cs, 0, first);
    let right = unspaced(&cs, first + 1, cs.len());
    Some((terms_of_side(&left), terms_of_side(&right)))
}

} // verus!
