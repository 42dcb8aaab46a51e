//! A small tokenizer: words split on whitespace and ASCII punctuation.

use crate::text::{chars_of, is_white_space, string_from_chars, white_space};
use vstd::prelude::*;

verus! {

/// ASCII punctuation: the printable ASCII characters that are neither
/// letters, digits nor space.
pub open spec fn ascii_punctuation(c: char) -> bool {
    ('!' <= c <= '/') || (':' <= c <= '@') || ('[' <= c <= '`') || ('{' <= c <= '~')
}

/// Whether `c` is ASCII punctuation, as `char::is_ascii_punctuation`.
pub fn is_ascii_punct(c: char) -> (r: bool)
    ensures
        r == ascii_punctuation(c),
{
    ('!' <= c && c <= '/') || (':' <= c && c <= '@') || ('[' <= c && c <= '`') || ('{' <= c && c <= '~')
}

/// A character that separates tokens.
pub open spec fn separator(c: char) -> bool {
    white_space(c) || ascii_punctuation(c)
}

/// The tokens completed so far in `s`, and the token still open at its end.
pub open spec fn scan(s: Seq<char>) -> (Seq<Seq<char>>, Seq<char>)
    decreases s.len(),
{
    if s.len() == 0 {
        (Seq::empty(), Seq::empty())
    } else {
        let (done, open) = scan(s.drop_last());
        if separator(s.last()) {
            if open.len() > 0 {
                (done.push(open), Seq::empty())
            } else {
                (done, Seq::empty())
            }
        } else {
            (done, open.push(s.last()))
        }
    }
}

/// The non-empty runs of non-separator characters of `s`, in order.
pub open spec fn tokens_of(s: Seq<char>) -> Seq<Seq<char>> {
    let (done, open) = scan(s);
    if open.len() > 0 {
        done.push(open)
    } else {
        done
    }
}

/// The tokens joined by single spaces.
pub open spec fn joined(ts: Seq<Seq<char>>) -> Seq<char>
    decreases ts.len(),
{
    if ts.len() == 0 {
        Seq::empty()
    } else if ts.len() == 1 {
        ts[0]
    } else {
        joined(ts.drop_last()) + seq![' '] + ts.last()
    }
}

/// Splits `s` on whitespace and ASCII punctuation, dropping empty pieces.
pub fn tokenize(s: &str) -> (r: Vec<String>)
    ensures
        r.len() == tokens_of(s@).len(),
        forall|i: int| 0 <= i < r.len() ==> #[trigger] r[i]@ == tokens_of(s@)[i],
{
    let cs = chars_of(s);
    let mut done: Vec<String> = Vec::new();
    let mut open: Vec<char> = Vec::new();
    let mut i: usize = 0;
    while i < cs.len()
        invariant
            i <= cs.len(),
            cs@ == s@,
            done.len() == scan(cs@.subrange(0, i as int)).0.len(),
            forall|j: int|
                0 <= j < done.len() ==> #[trigger] done[j]@ == scan(cs@.subrange(0, i as int)).0[j],
            open@ == scan(cs@.subrange(0, i as int)).1,
        decreases cs.len() - i,
    {
        let c = cs[i];
        assert(cs@.subrange(0, i + 1 as int).drop_last() =~= cs@.subrange(0, i as int));
        if is_white_space(c) || is_ascii_punct(c) {
            if open.len() > 0 {
                done.push(string_from_chars(&open));
                open = Vec::new();
            }
        } else {
            open.push(c);
        }
        i = i + 1;
    }
    assert(cs@.subrange(0, cs.len() as int) =~= cs@);
    if open.len() > 0 {
        done.push(string_from_chars(&open));
    }
    done
}

/// The tokens joined by single spaces.
pub fn detokenize(tokens: &[String]) -> (r: String)
    ensures
        r@ == joined(tokens@.map_values(|t: String| t@)),
{
    let ghost ts = tokens@.map_values(|t: String| t@);
    let mut out = String::new();
    let mut i: usize = 0;
    while i < tokens.len()
        invariant
            i <= tokens.len(),
            ts == tokens@.map_values(|t: String| t@),
            out@ == joined(ts.subrange(0, i as int)),
        decreases tokens.len() - i,
    {
        assert(ts.subrange(0, i + 1 as int).drop_last() =~= ts.subrange(0, i as int));
        if i > 0 {
            out.append(" ");
        }
        out.append(tokens[i].as_str());
        i = i + 1;
        proof {
            reveal_strlit(" ");
        }
        assert(out@ =~= joined(ts.subrange(0, i as int)));
    }
    assert(ts.subrange(0, tokens.len() as int) =~= ts);
    out
}

} // verus!
