//! Contextual memory: the words of an interpretation (`", "`-separated)
//! counted into the word-frequency table.

use crate::grammar::{grammar_view, lookup, lookup_word};
use crate::memory_freq::{capped, count_of, occurrences, table_view, words_distinct};
use crate::similarity::{distinct, holds, same_chars, seqs_view};
use crate::text::{ascii_lower, chars_of, lower_ascii_of, push_all, trim_spec, trimmed_range};
use vstd::prelude::*;

verus! {

/// The pieces of `s` between the separators `", "`, from left to right.
pub open spec fn split_pieces(s: Seq<char>) -> Seq<Seq<char>>
    decreases s.len(),
{
    if s.len() == 0 {
        seq![Seq::<char>::empty()]
    } else if s.len() >= 2 && s[0] == ',' && s[1] == ' ' {
        seq![Seq::<char>::empty()] + split_pieces(s.subrange(2, s.len() as int))
    } else {
        let r = split_pieces(s.drop_first());
        r.update(0, seq![s[0]] + r[0])
    }
}

/// The pieces trimmed, the empty ones dropped.
pub open spec fn kept_words(ps: Seq<Seq<char>>) -> Seq<Seq<char>>
    decreases ps.len(),
{
    if ps.len() == 0 {
        Seq::empty()
    } else {
        let rest = kept_words(ps.drop_last());
        let t = trim_spec(ps.last());
        if t.len() > 0 {
            rest.push(t)
        } else {
            rest
        }
    }
}

/// The words of an interpretation.
pub open spec fn interpretation_words(s: Seq<char>) -> Seq<Seq<char>> {
    kept_words(split_pieces(s))
}

proof fn lemma_pieces_nonempty(s: Seq<char>)
    ensures
        split_pieces(s).len() >= 1,
    decreases s.len(),
{
    if s.len() >= 2 && s[0] == ',' && s[1] == ' ' {
        lemma_pieces_nonempty(s.subrange(2, s.len() as int));
    } else if s.len() > 0 {
        lemma_pieces_nonempty(s.drop_first());
    }
}

/// The pieces of the characters `i..` of `cs`.
fn pieces_from(cs: &Vec<char>, i: usize) -> (r: Vec<Vec<char>>)
    requires
        i <= cs.len(),
    ensures
        r@.map_values(|v: Vec<char>| v@) == split_pieces(cs@.subrange(i as int, cs.len() as int)),
    decreases cs.len() - i,
{
    let ghost s = cs@.subrange(i as int, cs.len() as int);
    if i == cs.len() {
        let mut r: Vec<Vec<char>> = Vec::new();
        r.push(Vec::new());
        assert(r@.map_values(|v: Vec<char>| v@) =~= split_pieces(s));
        return r;
    }
    if i + 1 < cs.len() && cs[i] == ',' && cs[i + 1] == ' ' {
        let rest = pieces_from(cs, i + 2);
        assert(s.subrange(2, s.len() as int) =~= cs@.subrange(i + 2, cs.len() as int));
        let mut r: Vec<Vec<char>> = Vec::new();
        r.push(Vec::new());
        let mut k: usize = 0;
        while k < rest.len()
            invariant
                k <= rest.len(),
                r.len() == k + 1,
                r@[0]@ == Seq::<char>::empty(),
                forall|q: int| 0 <= q < k ==> #[trigger] r@[q + 1]@ == rest@[q]@,
            decreases rest.len() - k,
        {
            r.push(rest[k].clone());
            k = k + 1;
        }
        let ghost rv = rest@.map_values(|v: Vec<char>| v@);
        assert forall|j: int| 1 <= j < r.len() implies r@[j]@ == rv[j - 1] by {
            assert(r@[(j - 1) + 1]@ == rest@[j - 1]@);
        }
        assert(r@.map_values(|v: Vec<char>| v@) =~= seq![Seq::<char>::empty()] + rv);
        return r;
    }
    let mut r = pieces_from(cs, i + 1);
    assert(s.drop_first() =~= cs@.subrange(i + 1, cs.len() as int));
    proof {
        lemma_pieces_nonempty(s.drop_first());
    }
    let ghost before = r@.map_values(|v: Vec<char>| v@);
    let mut first: Vec<char> = Vec::new();
    first.push(cs[i]);
    let mut k: usize = 0;
    while k < r[0].len()
        invariant
            r@.map_values(|v: Vec<char>| v@) == before,
            before.len() >= 1,
            i < cs.len(),
            k <= r@[0].len(),
            first@ == seq![cs@[i as int]] + r@[0]@.subrange(0, k as int),
        decreases r@[0].len() - k,
    {
        first.push(r[0][k]);
        k = k + 1;
        assert(first@ =~= seq![cs@[i as int]] + r@[0]@.subrange(0, k as int));
    }
    assert(r@[0]@.subrange(0, r@[0].len() as int) =~= r@[0]@);
    assert(before[0] == r@[0]@);
    r.set(0, first);
    assert(r@.map_values(|v: Vec<char>| v@) =~= before.update(0, seq![cs@[i as int]] + before[0]));
    r
}

/// The words of an interpretation: its `", "`-separated pieces, trimmed,
/// without the empty ones.
pub fn words_of_interpretation(interpretation: &str) -> (r: Vec<String>)
    ensures
        r@.map_values(|s: String| s@) == interpretation_words(interpretation@),
{
    let cs = chars_of(interpretation);
    let ps = pieces_from(&cs, 0);
    assert(cs@.subrange(0, cs.len() as int) =~= cs@);
    let ghost pv = ps@.map_values(|v: Vec<char>| v@);
    let mut out: Vec<String> = Vec::new();
    let mut i: usize = 0;
    while i < ps.len()
        invariant
            i <= ps.len(),
            pv == ps@.map_values(|v: Vec<char>| v@),
            out@.map_values(|s: String| s@) == kept_words(pv.subrange(0, i as int)),
        decreases ps.len() - i,
    {
        let t = trimmed_range(&ps[i], 0, ps[i].len());
        assert(ps@[i as int]@.subrange(0, ps@[i as int].len() as int) =~= pv[i as int]);
        assert(pv.subrange(0, i + 1 as int).drop_last() =~= pv.subrange(0, i as int));
        let ghost before = out@.map_values(|s: String| s@);
        if !t.as_str().is_empty() {
            out.push(t);
            assert(out@.map_values(|s: String| s@) =~= before.push(trim_spec(pv[i as int])));
        }
        i = i + 1;
    }
    assert(pv.subrange(0, ps.len() as int) =~= pv);
    out
}

/// Counts one more occurrence of each word of `interpretation` (its
/// `", "`-separated pieces, trimmed, the empty ones dropped).
pub fn update_memory_freq(memory_freq: &mut Vec<(String, usize)>, interpretation: &str)
    ensures
        words_distinct(table_view(old(memory_freq)@)) ==> words_distinct(
            table_view(final(memory_freq)@),
        ),
        forall|v: Seq<char>|
            #[trigger] count_of(table_view(final(memory_freq)@), v) == capped(
                count_of(table_view(old(memory_freq)@), v) + occurrences(
                    interpretation_words(interpretation@),
                    v,
                ),
            ),
{
    let words = words_of_interpretation(interpretation);
    crate::memory_freq::update_memory_freq(memory_freq, words.as_slice());
}

/// At most this many words make up a contextual interpretation.
pub const TOP_WORDS: usize = 10;

/// The grammar words of the characters of `raw` (looked up by their ASCII
/// lowercase form), in order, with repeats.
pub open spec fn mapped_list(raw: Seq<char>, g: Seq<(char, Seq<char>)>) -> Seq<Seq<char>>
    decreases raw.len(),
{
    if raw.len() == 0 {
        Seq::empty()
    } else {
        let rest = mapped_list(raw.drop_last(), g);
        match lookup(g, lower_ascii_of(raw.last())) {
            Some(w) => rest.push(w),
            None => rest,
        }
    }
}

/// Position in `ws` of the first word of highest count in `ls`.
pub open spec fn max_pos(ws: Seq<Seq<char>>, ls: Seq<Seq<char>>) -> int
    decreases ws.len(),
{
    if ws.len() <= 1 {
        0
    } else {
        let p = max_pos(ws.drop_last(), ls);
        if occurrences(ls, ws.last()) > occurrences(ls, ws[p]) {
            ws.len() - 1
        } else {
            p
        }
    }
}

/// The first `k` words of `ws` by decreasing count in `ls`, the earlier
/// word first among equal counts.
pub open spec fn ranked(ws: Seq<Seq<char>>, ls: Seq<Seq<char>>, k: nat) -> Seq<Seq<char>>
    decreases k,
{
    if k == 0 || ws.len() == 0 {
        Seq::empty()
    } else {
        let p = max_pos(ws, ls);
        seq![ws[p]] + ranked(ws.remove(p), ls, (k - 1) as nat)
    }
}

/// The words joined by `", "`.
pub open spec fn comma_joined(ws: Seq<Seq<char>>) -> Seq<char>
    decreases ws.len(),
{
    if ws.len() == 0 {
        Seq::empty()
    } else if ws.len() == 1 {
        ws[0]
    } else {
        comma_joined(ws.drop_last()) + ", "@ + ws.last()
    }
}

/// The contextual interpretation of `raw`: its most frequent grammar words.
pub open spec fn contextual(raw: Seq<char>, g: Seq<(char, Seq<char>)>) -> Seq<char> {
    let ls = mapped_list(raw, g);
    comma_joined(ranked(distinct(ls), ls, TOP_WORDS as nat))
}

proof fn lemma_max_pos_bounds(ws: Seq<Seq<char>>, ls: Seq<Seq<char>>)
    requires
        ws.len() > 0,
    ensures
        0 <= max_pos(ws, ls) < ws.len(),
    decreases ws.len(),
{
    if ws.len() > 1 {
        lemma_max_pos_bounds(ws.drop_last(), ls);
    }
}

/// How many times `w` occurs in `list`.
fn count_in(list: &Vec<Vec<char>>, w: &Vec<char>) -> (r: usize)
    ensures
        r == occurrences(seqs_view(list@), w@),
{
    let ghost lv = seqs_view(list@);
    let mut n: usize = 0;
    let mut i: usize = 0;
    while i < list.len()
        invariant
            i <= list.len(),
            lv == seqs_view(list@),
            n == occurrences(lv.subrange(0, i as int), w@),
            n <= i,
        decreases list.len() - i,
    {
        assert(lv.subrange(0, i + 1 as int).drop_last() =~= lv.subrange(0, i as int));
        if same_chars(&list[i], w) {
            n = n + 1;
        }
        i = i + 1;
    }
    assert(lv.subrange(0, list.len() as int) =~= lv);
    n
}

/// Interprets `raw` by its most frequent grammar words: counts the word of
/// each known character (after ASCII lowercasing) and lists up to ten
/// words by decreasing count, earlier words first among equals, joined by
/// `", "`.
pub fn interpret_contextual(raw: &str, grammar: &Vec<(char, String)>) -> (r: String)
    ensures
        r@ == contextual(raw@, grammar_view(grammar@)),
{
    let ghost g = grammar_view(grammar@);
    let cs = chars_of(raw);
    let mut list: Vec<Vec<char>> = Vec::new();
    let mut i: usize = 0;
    while i < cs.len()
        invariant
            i <= cs.len(),
            cs@ == raw@,
            g == grammar_view(grammar@),
            seqs_view(list@) == mapped_list(cs@.subrange(0, i as int), g),
        decreases cs.len() - i,
    {
        assert(cs@.subrange(0, i + 1 as int).drop_last() =~= cs@.subrange(0, i as int));
        match lookup_word(grammar, ascii_lower(cs[i])) {
            Some(w) => {
                let ghost before = seqs_view(list@);
                list.push(chars_of(w.as_str()));
                assert(seqs_view(list@) =~= before.push(w@));
            },
            None => {},
        }
        i = i + 1;
    }
    assert(cs@.subrange(0, cs.len() as int) =~= cs@);
    let ghost ls = seqs_view(list@);
    let mut words: Vec<Vec<char>> = Vec::new();
    let mut j: usize = 0;
    assert(seqs_view(words@) =~= distinct(ls.subrange(0, 0)));
    while j < list.len()
        invariant
            j <= list.len(),
            ls == seqs_view(list@),
            seqs_view(words@) == distinct(ls.subrange(0, j as int)),
        decreases list.len() - j,
    {
        assert(ls.subrange(0, j + 1 as int).drop_last() =~= ls.subrange(0, j as int));
        let ghost before = seqs_view(words@);
        if !holds(&words, &list[j]) {
            words.push(list[j].clone());
            assert(seqs_view(words@) =~= before.push(ls[j as int]));
        }
        j = j + 1;
    }
    assert(ls.subrange(0, list.len() as int) =~= ls);
    let mut counts: Vec<usize> = Vec::new();
    let mut k: usize = 0;
    while k < words.len()
        invariant
            k <= words.len(),
            ls == seqs_view(list@),
            counts.len() == k,
            forall|q: int| 0 <= q < k ==> #[trigger] counts@[q] == occurrences(ls, words@[q]@),
        decreases words.len() - k,
    {
        counts.push(count_in(&list, &words[k]));
        k = k + 1;
    }
    let ghost full = seqs_view(words@);
    let mut picked: Vec<Vec<char>> = Vec::new();
    let mut round: usize = 0;
    while round < TOP_WORDS && words.len() > 0
        invariant
            round <= TOP_WORDS,
            counts.len() == words.len(),
            forall|q: int| 0 <= q < words.len() ==> #[trigger] counts@[q] == occurrences(ls, words@[q]@),
            seqs_view(picked@) + ranked(seqs_view(words@), ls, (TOP_WORDS - round) as nat) == ranked(
                full,
                ls,
                TOP_WORDS as nat,
            ),
        decreases TOP_WORDS - round,
    {
        let ghost wv = seqs_view(words@);
        let mut p: usize = 0;
        let mut q: usize = 1;
        while q < words.len()
            invariant
                1 <= q <= words.len(),
                p < q,
                counts.len() == words.len(),
                wv == seqs_view(words@),
                forall|t: int| 0 <= t < words.len() ==> #[trigger] counts@[t] == occurrences(ls, words@[t]@),
                p == max_pos(wv.subrange(0, q as int), ls),
            decreases words.len() - q,
        {
            assert(wv.subrange(0, q + 1 as int).drop_last() =~= wv.subrange(0, q as int));
            assert(wv.subrange(0, q + 1 as int).last() == wv[q as int]);
            assert(wv.subrange(0, q as int)[p as int] == wv[p as int]);
            if counts[q] > counts[p] {
                p = q;
            }
            q = q + 1;
        }
        assert(wv.subrange(0, words.len() as int) =~= wv);
        proof {
            lemma_max_pos_bounds(wv, ls);
        }
        let ghost pv = seqs_view(picked@);
        let w = words.remove(p);
        counts.remove(p);
        picked.push(w);
        assert(seqs_view(words@) =~= wv.remove(p as int));
        assert(seqs_view(picked@) =~= pv.push(wv[p as int]));
        assert(seqs_view(picked@) + ranked(seqs_view(words@), ls, (TOP_WORDS - (round + 1)) as nat)
            =~= pv + ranked(wv, ls, (TOP_WORDS - round) as nat));
        round = round + 1;
    }
    assert(ranked(seqs_view(words@), ls, (TOP_WORDS - round) as nat) =~= Seq::<Seq<char>>::empty());
    assert(seqs_view(picked@) =~= seqs_view(picked@) + Seq::<Seq<char>>::empty());
    let ghost pk = seqs_view(picked@);
    let mut out = String::new();
    let mut m: usize = 0;
    while m < picked.len()
        invariant
            m <= picked.len(),
            pk == seqs_view(picked@),
            out@ == comma_joined(pk.subrange(0, m as int)),
        decreases picked.len() - m,
    {
        assert(pk.subrange(0, m + 1 as int).drop_last() =~= pk.subrange(0, m as int));
        let ghost before = out@;
        if m > 0 {
            out.append(", ");
        }
        push_all(&mut out, &picked[m]);
        m = m + 1;
        assert(out@ =~= comma_joined(pk.subrange(0, m as int)));
    }
    assert(pk.subrange(0, picked.len() as int) =~= pk);
    out
}

} // verus!
