//! Conservative decoding of raw model output into a readable sentence.

use crate::text::{ascii_upper, chars_of, push_char, string_of, upper_of};
use vstd::prelude::*;

verus! {

/// The characters decoding keeps: ASCII letters and digits, space, and
/// `. , ? !`.
pub open spec fn readable(c: char) -> bool {
    ('a' <= c <= 'z') || ('A' <= c <= 'Z') || ('0' <= c <= '9') || c == ' ' || c == '.' || c
        == ',' || c == '?' || c == '!'
}

/// The readable characters of `s`, in order.
pub open spec fn readable_part(s: Seq<char>) -> Seq<char>
    decreases s.len(),
{
    if s.len() == 0 {
        s
    } else {
        let rest = readable_part(s.drop_last());
        if readable(s.last()) {
            rest.push(s.last())
        } else {
            rest
        }
    }
}

/// A character that ends a sentence.
pub open spec fn terminal(c: char) -> bool {
    c == '.' || c == '!' || c == '?'
}

/// The reply when nothing readable is left.
pub open spec fn undecodable_text() -> Seq<char> {
    "(не удалось расшифровать ответ)"@
}

/// What `decode_raw` gives for `raw`: its readable characters, the first
/// capitalised and a full stop added unless it already ends a sentence; or
/// the fallback reply when nothing is readable.
pub open spec fn decoded(raw: Seq<char>) -> Seq<char> {
    let k = readable_part(raw);
    if k.len() == 0 {
        undecodable_text()
    } else {
        let body = seq![upper_of(k[0])] + k.drop_first();
        if terminal(body.last()) {
            body
        } else {
            body.push('.')
        }
    }
}

/// Keeps the readable characters of `raw`, capitalises the first and makes
/// sure the text ends a sentence.
pub fn decode_raw(raw: &str) -> (r: String)
    ensures
        r@ == decoded(raw@),
{
    let cs = chars_of(raw);
    let mut kept: Vec<char> = Vec::new();
    let mut i: usize = 0;
    while i < cs.len()
        invariant
            i <= cs.len(),
            cs@ == raw@,
            kept@ == readable_part(cs@.subrange(0, i as int)),
        decreases cs.len() - i,
    {
        let c = cs[i];
        assert(cs@.subrange(0, i + 1 as int).drop_last() =~= cs@.subrange(0, i as int));
        if ('a' <= c && c <= 'z') || ('A' <= c && c <= 'Z') || ('0' <= c && c <= '9') || c == ' '
            || c == '.' || c == ',' || c == '?' || c == '!' {
            kept.push(c);
        }
        i = i + 1;
    }
    assert(cs@.subrange(0, cs.len() as int) =~= cs@);
    if kept.len() == 0 {
        proof {
            reveal_strlit("(не удалось расшифровать ответ)");
        }
        return string_of("(не удалось расшифровать ответ)");
    }
    let mut out = String::new();
    push_char(&mut out, ascii_upper(kept[0]));
    let mut j: usize = 1;
    while j < kept.len()
        invariant
            1 <= j <= kept.len(),
            out@ == seq![upper_of(kept@[0])] + kept@.subrange(1, j as int),
        decreases kept.len() - j,
    {
        push_char(&mut out, kept[j]);
        j = j + 1;
        assert(out@ =~= seq![upper_of(kept@[0])] + kept@.subrange(1, j as int));
    }
    assert(kept@.subrange(1, kept.len() as int) =~= kept@.drop_first());
    let last = if kept.len() == 1 {
        ascii_upper(kept[0])
    } else {
        kept[kept.len() - 1]
    };
    assert(last == out@.last());
    if !(last == '.' || last == '!' || last == '?') {
        push_char(&mut out, '.');
    }
    out
}

} // verus!
