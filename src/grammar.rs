//! A toy grammar: characters of a decoded answer mapped to words.
//!
//! The grammar is an association list from a character to its word; the
//! first entry for a character is the one that counts.

use crate::text::{
    ascii_lower, chars_of, is_white_space, lower_ascii_of, string_from_chars, string_of, trim_spec,
    trim_start_spec, trimmed_range, white_space,
};
use vstd::prelude::*;

verus! {

/// The word of `c` in the grammar `g`: the first entry for `c`.
pub open spec fn lookup(g: Seq<(char, Seq<char>)>, c: char) -> Option<Seq<char>>
    decreases g.len(),
{
    if g.len() == 0 {
        None
    } else if g[0].0 == c {
        Some(g[0].1)
    } else {
        lookup(g.drop_first(), c)
    }
}

/// The grammar's entries as characters and words.
pub open spec fn grammar_view(g: Seq<(char, String)>) -> Seq<(char, Seq<char>)> {
    g.map_values(|p: (char, String)| (p.0, p.1@))
}

/// The words of the characters of `raw` that the grammar knows (looked up
/// by their ASCII-lowercase form), each followed by a space.
pub open spec fn mapped_words(raw: Seq<char>, g: Seq<(char, Seq<char>)>) -> Seq<char>
    decreases raw.len(),
{
    if raw.len() == 0 {
        Seq::empty()
    } else {
        let rest = mapped_words(raw.drop_last(), g);
        match lookup(g, lower_ascii_of(raw.last())) {
            Some(w) => rest + w + seq![' '],
            None => rest,
        }
    }
}

/// The reply when no character of the answer is known.
pub open spec fn unclear_text() -> Seq<char> {
    "(непонятный ответ — требуется переобучение)"@
}

/// What `interpret` gives: the mapped words, trimmed; or the fallback reply
/// when nothing was mapped.
pub open spec fn interpreted(raw: Seq<char>, g: Seq<(char, Seq<char>)>) -> Seq<char> {
    let m = mapped_words(raw, g);
    if m.len() == 0 {
        unclear_text()
    } else {
        trim_spec(m)
    }
}

/// The word of `c` in `grammar`, if any.
pub fn lookup_word(grammar: &Vec<(char, String)>, c: char) -> (r: Option<&String>)
    ensures
        r is Some <==> lookup(grammar_view(grammar@), c) is Some,
        r matches Some(w) ==> lookup(grammar_view(grammar@), c) == Some(w@),
{
    let ghost g = grammar_view(grammar@);
    assert(g.subrange(0, g.len() as int) =~= g);
    let mut i: usize = 0;
    while i < grammar.len()
        invariant
            i <= grammar.len(),
            g == grammar_view(grammar@),
            lookup(g, c) == lookup(g.subrange(i as int, g.len() as int), c),
        decreases grammar.len() - i,
    {
        assert(g.subrange(i as int, g.len() as int).drop_first() =~= g.subrange(
            i + 1,
            g.len() as int,
        ));
        if grammar[i].0 == c {
            return Some(&grammar[i].1);
        }
        i = i + 1;
    }
    None
}

/// Turns a decoded answer into words: each character found in the
/// grammar (after ASCII lowercasing) adds its word; the words are separated
/// by spaces. Without any match, a fallback reply asks for retraining.
pub fn interpret(raw: &str, grammar: &Vec<(char, String)>) -> (r: String)
    ensures
        r@ == interpreted(raw@, grammar_view(grammar@)),
{
    let ghost g = grammar_view(grammar@);
    let cs = chars_of(raw);
    let mut out: Vec<char> = Vec::new();
    let mut i: usize = 0;
    while i < cs.len()
        invariant
            i <= cs.len(),
            cs@ == raw@,
            g == grammar_view(grammar@),
            out@ == mapped_words(cs@.subrange(0, i as int), g),
        decreases cs.len() - i,
    {
        assert(cs@.subrange(0, i + 1 as int).drop_last() =~= cs@.subrange(0, i as int));
        let lc = ascii_lower(cs[i]);
        match lookup_word(grammar, lc) {
            Some(w) => {
                let ghost before = out@;
                let wc = chars_of(w.as_str());
                let mut k: usize = 0;
                while k < wc.len()
                    invariant
                        k <= wc.len(),
                        out@ == before + wc@.subrange(0, k as int),
                    decreases wc.len() - k,
                {
                    out.push(wc[k]);
                    k = k + 1;
                    assert(out@ =~= before + wc@.subrange(0, k as int));
                }
                out.push(' ');
                assert(wc@.subrange(0, wc.len() as int) =~= wc@);
                assert(out@ =~= before + w@ + seq![' ']);
            },
            None => {},
        }
        i = i + 1;
    }
    assert(cs@.subrange(0, cs.len() as int) =~= cs@);
    if out.len() == 0 {
        return string_of("(непонятный ответ — требуется переобучение)");
    }
    let r = trimmed_range(&out, 0, out.len());
    assert(out@.subrange(0, out.len() as int) =~= out@);
    r
}

/// `s` without its leading double quotes.
pub open spec fn unquote_start(s: Seq<char>) -> Seq<char>
    decreases s.len(),
{
    if s.len() > 0 && s[0] == '"' {
        unquote_start(s.drop_first())
    } else {
        s
    }
}

/// `s` without its trailing double quotes.
pub open spec fn unquote_end(s: Seq<char>) -> Seq<char>
    decreases s.len(),
{
    if s.len() > 0 && s.last() == '"' {
        unquote_end(s.drop_last())
    } else {
        s
    }
}

/// A field of a table line: trimmed of whitespace, then of double quotes.
pub open spec fn field(s: Seq<char>) -> Seq<char> {
    unquote_end(unquote_start(trim_spec(s)))
}

/// The characters of `s` before its first whitespace.
pub open spec fn word_prefix(s: Seq<char>) -> Seq<char>
    decreases s.len(),
{
    if s.len() == 0 || white_space(s[0]) {
        Seq::empty()
    } else {
        seq![s[0]] + word_prefix(s.drop_first())
    }
}

/// The first word of `s`, or `s` itself if it holds no word.
pub open spec fn first_word(s: Seq<char>) -> Seq<char> {
    let t = trim_start_spec(s);
    if t.len() == 0 {
        s
    } else {
        word_prefix(t)
    }
}

/// `s` split at its first comma, the comma dropped.
pub open spec fn split_comma(s: Seq<char>) -> Option<(Seq<char>, Seq<char>)>
    decreases s.len(),
{
    if s.len() == 0 {
        None
    } else if s[0] == ',' {
        Some((Seq::empty(), s.drop_first()))
    } else {
        match split_comma(s.drop_first()) {
            Some((k, v)) => Some((seq![s[0]] + k, v)),
            None => None,
        }
    }
}

/// The entry of one `key,value` line of a grammar table: the first
/// character of the key field and the first word of the value field. A line
/// without a comma or with an empty key gives none.
pub open spec fn grammar_entry(line: Seq<char>) -> Option<(char, Seq<char>)> {
    match split_comma(line) {
        None => None,
        Some((k, v)) => {
            let key = field(k);
            if key.len() == 0 {
                None
            } else {
                Some((key[0], first_word(field(v))))
            }
        },
    }
}

proof fn lemma_split_comma_at(s: Seq<char>, p: int)
    requires
        0 <= p < s.len(),
        s[p] == ',',
        forall|j: int| 0 <= j < p ==> s[j] != ',',
    ensures
        split_comma(s) == Some((s.subrange(0, p), s.subrange(p + 1, s.len() as int))),
    decreases p,
{
    if p > 0 {
        let t = s.drop_first();
        lemma_split_comma_at(t, p - 1);
        assert(seq![s[0]] + t.subrange(0, p - 1) =~= s.subrange(0, p));
        assert(t.subrange(p, t.len() as int) =~= s.subrange(p + 1, s.len() as int));
    } else {
        assert(s.drop_first() =~= s.subrange(1, s.len() as int));
    }
}

proof fn lemma_no_comma(s: Seq<char>)
    requires
        forall|j: int| 0 <= j < s.len() ==> s[j] != ',',
    ensures
        split_comma(s) is None,
    decreases s.len(),
{
    if s.len() > 0 {
        lemma_no_comma(s.drop_first());
    }
}

/// The characters `lo..hi` of `v` with leading and trailing double quotes
/// removed, as bounds.
fn unquote_range(v: &Vec<char>, lo: usize, hi: usize) -> (r: (usize, usize))
    requires
        lo <= hi <= v.len(),
    ensures
        lo <= r.0 <= r.1 <= hi,
        v@.subrange(r.0 as int, r.1 as int) == unquote_end(
            unquote_start(v@.subrange(lo as int, hi as int)),
        ),
{
    let mut a = lo;
    while a < hi && v[a] == '"'
        invariant
            lo <= a <= hi,
            hi <= v.len(),
            unquote_start(v@.subrange(lo as int, hi as int)) == unquote_start(
                v@.subrange(a as int, hi as int),
            ),
        decreases hi - a,
    {
        assert(v@.subrange(a as int, hi as int).drop_first() =~= v@.subrange(a + 1, hi as int));
        a = a + 1;
    }
    let mut b = hi;
    while b > a && v[b - 1] == '"'
        invariant
            a <= b <= hi,
            hi <= v.len(),
            unquote_end(v@.subrange(a as int, hi as int)) == unquote_end(
                v@.subrange(a as int, b as int),
            ),
        decreases b - a,
    {
        assert(v@.subrange(a as int, b as int).drop_last() =~= v@.subrange(a as int, b - 1));
        b = b - 1;
    }
    (a, b)
}

/// The first word of `v`, or all of `v` if it holds no word.
fn first_word_of(v: &Vec<char>) -> (r: Vec<char>)
    ensures
        r@ == first_word(v@),
{
    let mut a: usize = 0;
    assert(v@.subrange(0, v.len() as int) =~= v@);
    while a < v.len() && is_white_space(v[a])
        invariant
            a <= v.len(),
            trim_start_spec(v@) == trim_start_spec(v@.subrange(a as int, v.len() as int)),
        decreases v.len() - a,
    {
        assert(v@.subrange(a as int, v.len() as int).drop_first() =~= v@.subrange(
            a + 1,
            v.len() as int,
        ));
        a = a + 1;
    }
    assert(trim_start_spec(v@.subrange(a as int, v.len() as int)) == v@.subrange(
        a as int,
        v.len() as int,
    ));
    if a == v.len() {
        assert(trim_start_spec(v@).len() == 0);
        return v.clone();
    }
    let mut b = a;
    let mut out: Vec<char> = Vec::new();
    while b < v.len() && !is_white_space(v[b])
        invariant
            a <= b <= v.len(),
            out@ == v@.subrange(a as int, b as int),
            word_prefix(v@.subrange(a as int, v.len() as int)) == out@ + word_prefix(
                v@.subrange(b as int, v.len() as int),
            ),
        decreases v.len() - b,
    {
        let ghost t = v@.subrange(b as int, v.len() as int);
        assert(t.drop_first() =~= v@.subrange(b + 1, v.len() as int));
        assert(word_prefix(t) == seq![t[0]] + word_prefix(t.drop_first()));
        out.push(v[b]);
        b = b + 1;
        assert(out@ + word_prefix(v@.subrange(b as int, v.len() as int)) =~= v@.subrange(
            a as int,
            b - 1,
        ) + (seq![t[0]] + word_prefix(t.drop_first())));
    }
    assert(word_prefix(v@.subrange(b as int, v.len() as int)) =~= Seq::<char>::empty());
    assert(out@ =~= out@ + Seq::<char>::empty());
    out
}

/// Parses one `key,value` line of a grammar table: the first character of
/// the key field and the first word of the value field, each field trimmed
/// of whitespace and double quotes.
pub fn parse_grammar_line(line: &str) -> (r: Option<(char, String)>)
    ensures
        r is Some <==> grammar_entry(line@) is Some,
        r matches Some((c, w)) ==> grammar_entry(line@) == Some((c, w@)),
{
    let cs = chars_of(line);
    let mut p: usize = 0;
    while p < cs.len() && cs[p] != ','
        invariant
            p <= cs.len(),
            forall|j: int| 0 <= j < p ==> cs@[j] != ',',
        decreases cs.len() - p,
    {
        p = p + 1;
    }
    if p == cs.len() {
        proof {
            lemma_no_comma(cs@);
        }
        return None;
    }
    proof {
        lemma_split_comma_at(cs@, p as int);
    }
    let key_t = chars_of(trimmed_range(&cs, 0, p).as_str());
    let (ka, kb) = unquote_range(&key_t, 0, key_t.len());
    assert(key_t@.subrange(0, key_t.len() as int) =~= key_t@);
    if ka == kb {
        return None;
    }
    let key = key_t[ka];
    let val_t = chars_of(trimmed_range(&cs, p + 1, cs.len()).as_str());
    let (va, vb) = unquote_range(&val_t, 0, val_t.len());
    assert(val_t@.subrange(0, val_t.len() as int) =~= val_t@);
    let mut val: Vec<char> = Vec::new();
    let mut k = va;
    while k < vb
        invariant
            va <= k <= vb,
            vb <= val_t.len(),
            val@ == val_t@.subrange(va as int, k as int),
        decreases vb - k,
    {
        val.push(val_t[k]);
        k = k + 1;
        assert(val@ =~= val_t@.subrange(va as int, k as int));
    }
    let w = first_word_of(&val);
    Some((key, string_from_chars(&w)))
}

/// No character has two entries in `g`.
pub open spec fn chars_distinct(g: Seq<(char, Seq<char>)>) -> bool {
    forall|i: int, j: int| 0 <= i < j < g.len() ==> g[i].0 != g[j].0
}

/// Sets the word of `c` in `grammar`: an existing entry for `c` is replaced
/// in place, otherwise the entry is added at the end.
pub fn set_entry(grammar: &mut Vec<(char, String)>, c: char, w: String)
    ensures
        lookup(grammar_view(final(grammar)@), c) == Some(w@),
        forall|d: char| d != c ==> lookup(grammar_view(final(grammar)@), d) == lookup(
            grammar_view(old(grammar)@),
            d,
        ),
        chars_distinct(grammar_view(old(grammar)@)) ==> chars_distinct(grammar_view(final(grammar)@)),
{
    let ghost g0 = grammar_view(grammar@);
    let mut i: usize = 0;
    while i < grammar.len()
        invariant
            i <= grammar.len(),
            grammar@ == old(grammar)@,
            g0 == grammar_view(grammar@),
            forall|j: int| 0 <= j < i ==> grammar@[j].0 != c,
        decreases grammar.len() - i,
    {
        if grammar[i].0 == c {
            let ghost wv = w@;
            grammar.set(i, (c, w));
            proof {
                lemma_lookup_set(g0, i as int, c, wv);
                assert(grammar_view(grammar@) =~= g0.update(i as int, (c, wv)));
                assert forall|a: int| 0 <= a < g0.len() implies #[trigger] grammar_view(grammar@)[a].0
                    == g0[a].0 by {}
            }
            return;
        }
        i = i + 1;
    }
    let ghost wv = w@;
    grammar.push((c, w));
    proof {
        lemma_lookup_push(g0, c, wv);
        assert(grammar_view(grammar@) =~= g0.push((c, wv)));
        assert forall|a: int| 0 <= a < g0.len() implies #[trigger] g0[a].0 != c by {}
    }
}

proof fn lemma_lookup_set(g: Seq<(char, Seq<char>)>, i: int, c: char, w: Seq<char>)
    requires
        0 <= i < g.len(),
        g[i].0 == c,
        forall|j: int| 0 <= j < i ==> g[j].0 != c,
    ensures
        lookup(g.update(i, (c, w)), c) == Some(w),
        forall|d: char| d != c ==> lookup(g.update(i, (c, w)), d) == lookup(g, d),
    decreases i,
{
    let u = g.update(i, (c, w));
    if i > 0 {
        lemma_lookup_set(g.drop_first(), i - 1, c, w);
        assert(u.drop_first() =~= g.drop_first().update(i - 1, (c, w)));
    } else {
        assert(u.drop_first() =~= g.drop_first());
    }
    assert forall|d: char| d != c implies lookup(u, d) == lookup(g, d) by {
        if i > 0 {
            assert(u[0] == g[0]);
            if g[0].0 != d {
                assert(lookup(u, d) == lookup(u.drop_first(), d));
                assert(lookup(g, d) == lookup(g.drop_first(), d));
                assert(lookup(g.drop_first().update(i - 1, (c, w)), d) == lookup(g.drop_first(), d));
            }
        } else {
            assert(lookup(u, d) == lookup(u.drop_first(), d));
            assert(lookup(g, d) == lookup(g.drop_first(), d));
        }
    }
}

proof fn lemma_lookup_push(g: Seq<(char, Seq<char>)>, c: char, w: Seq<char>)
    requires
        forall|j: int| 0 <= j < g.len() ==> g[j].0 != c,
    ensures
        lookup(g.push((c, w)), c) == Some(w),
        forall|d: char| d != c ==> lookup(g.push((c, w)), d) == lookup(g, d),
    decreases g.len(),
{
    let u = g.push((c, w));
    if g.len() > 0 {
        lemma_lookup_push(g.drop_first(), c, w);
        assert(u.drop_first() =~= g.drop_first().push((c, w)));
        assert(u[0] == g[0]);
    } else {
        assert(u.drop_first() =~= g);
    }
    assert forall|d: char| d != c implies lookup(u, d) == lookup(g, d) by {
        if g.len() == 0 {
            assert(lookup(u, d) == lookup(u.drop_first(), d));
            assert(lookup(u.drop_first(), d) == None::<Seq<char>>);
        } else if g[0].0 != d {
            assert(lookup(u, d) == lookup(u.drop_first(), d));
            assert(lookup(g, d) == lookup(g.drop_first(), d));
            assert(lookup(g.drop_first().push((c, w)), d) == lookup(g.drop_first(), d));
        }
    }
}

} // verus!
