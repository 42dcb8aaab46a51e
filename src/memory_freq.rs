//! Word-frequency memory: how often each word has come up. The table is an
//! association list from a word to its count; the first entry for a word
//! is the one that counts. Loading and saving are the caller's business.

use vstd::prelude::*;

verus! {

/// The table's entries as words and counts.
pub open spec fn table_view(t: Seq<(String, usize)>) -> Seq<(Seq<char>, usize)> {
    t.map_values(|p: (String, usize)| (p.0@, p.1))
}

/// The count of `w` in the table: that of its first entry, or 0.
pub open spec fn count_of(t: Seq<(Seq<char>, usize)>, w: Seq<char>) -> nat
    decreases t.len(),
{
    if t.len() == 0 {
        0
    } else if t[0].0 == w {
        t[0].1 as nat
    } else {
        count_of(t.drop_first(), w)
    }
}

/// How many times `w` occurs in `ws`.
pub open spec fn occurrences(ws: Seq<Seq<char>>, w: Seq<char>) -> nat
    decreases ws.len(),
{
    if ws.len() == 0 {
        0
    } else {
        occurrences(ws.drop_last(), w) + if ws.last() == w {
            1nat
        } else {
            0nat
        }
    }
}

/// `n`, or `usize::MAX` if larger: counts stop at the largest `usize`.
pub open spec fn capped(n: nat) -> nat {
    if n > usize::MAX {
        usize::MAX as nat
    } else {
        n
    }
}

proof fn lemma_count_bounded(t: Seq<(Seq<char>, usize)>, w: Seq<char>)
    ensures
        count_of(t, w) <= usize::MAX,
    decreases t.len(),
{
    if t.len() > 0 {
        lemma_count_bounded(t.drop_first(), w);
    }
}

proof fn lemma_count_set(t: Seq<(Seq<char>, usize)>, i: int, w: Seq<char>, n: usize)
    requires
        0 <= i < t.len(),
        t[i].0 == w,
        forall|j: int| 0 <= j < i ==> t[j].0 != w,
    ensures
        count_of(t, w) == t[i].1,
        count_of(t.update(i, (w, n)), w) == n,
        forall|v: Seq<char>| v != w ==> count_of(t.update(i, (w, n)), v) == count_of(t, v),
    decreases i,
{
    let u = t.update(i, (w, n));
    if i > 0 {
        lemma_count_set(t.drop_first(), i - 1, w, n);
        assert(u.drop_first() =~= t.drop_first().update(i - 1, (w, n)));
        assert(u[0] == t[0]);
    } else {
        assert(u.drop_first() =~= t.drop_first());
    }
    assert forall|v: Seq<char>| v != w implies count_of(u, v) == count_of(t, v) by {
        if i > 0 {
            if t[0].0 != v {
                assert(count_of(u, v) == count_of(u.drop_first(), v));
                assert(count_of(t, v) == count_of(t.drop_first(), v));
                assert(count_of(t.drop_first().update(i - 1, (w, n)), v) == count_of(
                    t.drop_first(),
                    v,
                ));
            }
        } else {
            assert(count_of(u, v) == count_of(u.drop_first(), v));
            assert(count_of(t, v) == count_of(t.drop_first(), v));
        }
    }
}

proof fn lemma_count_push(t: Seq<(Seq<char>, usize)>, w: Seq<char>, n: usize)
    requires
        forall|j: int| 0 <= j < t.len() ==> t[j].0 != w,
    ensures
        count_of(t, w) == 0,
        count_of(t.push((w, n)), w) == n,
        forall|v: Seq<char>| v != w ==> count_of(t.push((w, n)), v) == count_of(t, v),
    decreases t.len(),
{
    let u = t.push((w, n));
    if t.len() > 0 {
        lemma_count_push(t.drop_first(), w, n);
        assert(u.drop_first() =~= t.drop_first().push((w, n)));
        assert(u[0] == t[0]);
    } else {
        assert(u.drop_first() =~= t);
    }
    assert forall|v: Seq<char>| v != w implies count_of(u, v) == count_of(t, v) by {
        if t.len() == 0 {
            assert(count_of(u, v) == count_of(u.drop_first(), v));
        } else if t[0].0 != v {
            assert(count_of(u, v) == count_of(u.drop_first(), v));
            assert(count_of(t, v) == count_of(t.drop_first(), v));
            assert(count_of(t.drop_first().push((w, n)), v) == count_of(t.drop_first(), v));
        }
    }
}

/// No word has two entries in `t`.
pub open spec fn words_distinct(t: Seq<(Seq<char>, usize)>) -> bool {
    forall|i: int, j: int| 0 <= i < j < t.len() ==> t[i].0 != t[j].0
}

/// Counts one more occurrence of `w` (up to `usize::MAX`).
pub fn bump(freq: &mut Vec<(String, usize)>, w: &str)
    ensures
        count_of(table_view(final(freq)@), w@) == capped(count_of(table_view(old(freq)@), w@) + 1),
        forall|v: Seq<char>|
            v != w@ ==> count_of(table_view(final(freq)@), v) == count_of(
                table_view(old(freq)@),
                v,
            ),
        words_distinct(table_view(old(freq)@)) ==> words_distinct(table_view(final(freq)@)),
{
    let ghost t0 = table_view(freq@);
    let key = w.to_owned();
    let mut i: usize = 0;
    while i < freq.len()
        invariant
            i <= freq.len(),
            freq@ == old(freq)@,
            t0 == table_view(freq@),
            key@ == w@,
            forall|j: int| 0 <= j < i ==> t0[j].0 != w@,
        decreases freq.len() - i,
    {
        if freq[i].0 == key {
            let c = freq[i].1;
            let n = if c == usize::MAX {
                c
            } else {
                c + 1
            };
            proof {
                lemma_count_set(t0, i as int, w@, n);
            }
            freq.set(i, (key, n));
            assert(table_view(freq@) =~= t0.update(i as int, (w@, n)));
            assert forall|a: int| 0 <= a < t0.len() implies #[trigger] table_view(freq@)[a].0
                == t0[a].0 by {}
            return;
        }
        i = i + 1;
    }
    proof {
        lemma_count_push(t0, w@, 1);
    }
    freq.push((key, 1));
    assert(table_view(freq@) =~= t0.push((w@, 1usize)));
    assert forall|a: int| 0 <= a < t0.len() implies #[trigger] t0[a].0 != w@ by {}
}

/// Counts one more occurrence of each of `words`.
pub fn update_memory_freq(freq: &mut Vec<(String, usize)>, words: &[String])
    ensures
        words_distinct(table_view(old(freq)@)) ==> words_distinct(table_view(final(freq)@)),
        forall|v: Seq<char>|
            #[trigger] count_of(table_view(final(freq)@), v) == capped(
                count_of(table_view(old(freq)@), v) + occurrences(
                    words@.map_values(|s: String| s@),
                    v,
                ),
            ),
{
    let ghost ws = words@.map_values(|s: String| s@);
    assert forall|v: Seq<char>|
        #[trigger] count_of(table_view(freq@), v) == capped(
            count_of(table_view(old(freq)@), v) + occurrences(ws.subrange(0, 0), v),
        ) by {
        lemma_count_bounded(table_view(freq@), v);
    }
    let mut i: usize = 0;
    while i < words.len()
        invariant
            i <= words.len(),
            ws == words@.map_values(|s: String| s@),
            words_distinct(table_view(old(freq)@)) ==> words_distinct(table_view(freq@)),
            forall|v: Seq<char>|
                #[trigger] count_of(table_view(freq@), v) == capped(
                    count_of(table_view(old(freq)@), v) + occurrences(ws.subrange(0, i as int), v),
                ),
        decreases words.len() - i,
    {
        let ghost before = table_view(freq@);
        bump(freq, words[i].as_str());
        assert(ws.subrange(0, i + 1 as int).drop_last() =~= ws.subrange(0, i as int));
        i = i + 1;
        assert forall|v: Seq<char>|
            #[trigger] count_of(table_view(freq@), v) == capped(
                count_of(table_view(old(freq)@), v) + occurrences(ws.subrange(0, i as int), v),
            ) by {
            assert(ws.subrange(0, i as int).last() == ws[i - 1]);
            assert(occurrences(ws.subrange(0, i as int), v) == occurrences(
                ws.subrange(0, i - 1),
                v,
            ) + if ws[i - 1] == v {
                1nat
            } else {
                0nat
            });
        }
    }
    assert(ws.subrange(0, words.len() as int) =~= ws);
}

} // verus!
