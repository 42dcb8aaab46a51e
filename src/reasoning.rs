//! Keyword rules for understanding a query (its mode, a knowledge gap it
//! points at), the parts of a stored answer, and replies built from the
//! knowledge entry closest to the query.
//!
//! Knowledge is an association list of (question, answer) pairs; the first
//! entry for a question is the one that counts.

use crate::similarity::{frac_gt, fraction_greater, similarity, trigram_similarity};
use crate::text::{
    chars_of, contains_text, find_chars, find_from, has_infix, has_prefix, lemma_find_from, lower_of,
    lowercase, starts_with_text, string_of, trim_spec, trimmed_range,
};
use vstd::prelude::*;

verus! {

/// The mode of a lowercased query: a question if it holds `?` or begins
/// with a question word; an instruction if it holds a request word; else a
/// statement.
pub open spec fn mode_spec(lower: Seq<char>) -> Seq<char> {
    if has_infix(lower, "?"@) || has_prefix(lower, "что"@) || has_prefix(lower, "кто"@)
        || has_prefix(lower, "как"@) || has_prefix(lower, "почему"@) {
        "question"@
    } else if has_infix(lower, "покажи"@) || has_infix(lower, "как"@) || has_infix(
        lower,
        "сделай"@,
    ) {
        "instruction"@
    } else {
        "statement"@
    }
}

/// The mode of an already lowercased query.
pub fn mode_of_lowered(lower: &str) -> (r: &'static str)
    ensures
        r@ == mode_spec(lower@),
{
    if contains_text(lower, "?") || starts_with_text(lower, "что") || starts_with_text(lower, "кто")
        || starts_with_text(lower, "как") || starts_with_text(lower, "почему") {
        "question"
    } else if contains_text(lower, "покажи") || contains_text(lower, "как") || contains_text(
        lower,
        "сделай",
    ) {
        "instruction"
    } else {
        "statement"
    }
}

/// Detects the query mode (`question`, `instruction` or `statement`) from
/// keywords of the lowercased input.
pub fn detect_mode(input: &str) -> (r: &'static str)
    ensures
        r@ == mode_spec(lower_of(input@)),
{
    let lower = lowercase(input);
    mode_of_lowered(lower.as_str())
}

/// The topic whose knowledge a lowercased query asks for, if it is one of
/// the known gaps.
pub open spec fn gap_spec(q: Seq<char>) -> Option<Seq<char>> {
    if has_infix(q, "интеграл"@) || has_infix(q, "производн"@) || has_infix(q, "предел"@) {
        Some("calculus"@)
    } else if has_infix(q, "матриц"@) || has_infix(q, "determinant"@) || has_infix(q, "матрица"@) {
        Some("algebra_advanced"@)
    } else if has_infix(q, "квант"@) || has_infix(q, "физик"@) || has_infix(q, "суперпозици"@) {
        Some("physics"@)
    } else {
        None
    }
}

/// The knowledge gap of an already lowercased query.
pub fn gap_of_lowered(q: &str) -> (r: Option<String>)
    ensures
        r is Some <==> gap_spec(q@) is Some,
        r matches Some(t) ==> gap_spec(q@) == Some(t@),
{
    if contains_text(q, "интеграл") || contains_text(q, "производн") || contains_text(q, "предел") {
        Some(string_of("calculus"))
    } else if contains_text(q, "матриц") || contains_text(q, "determinant") || contains_text(
        q,
        "матрица",
    ) {
        Some(string_of("algebra_advanced"))
    } else if contains_text(q, "квант") || contains_text(q, "физик") || contains_text(
        q,
        "суперпозици",
    ) {
        Some(string_of("physics"))
    } else {
        None
    }
}

/// Detects a known knowledge gap in a query: `calculus`, `algebra_advanced`
/// or `physics`, by keywords of the lowercased query.
pub fn detect_knowledge_gap(query: &str) -> (r: Option<String>)
    ensures
        r is Some <==> gap_spec(lower_of(query@)) is Some,
        r matches Some(t) ==> gap_spec(lower_of(query@)) == Some(t@),
{
    let q = lowercase(query);
    gap_of_lowered(q.as_str())
}

/// The marker that opens the example part of an answer.
pub open spec fn example_marker() -> Seq<char> {
    "Пример:"@
}

/// The rule and the example of an answer: split at the first `Пример:`,
/// both parts trimmed and the example keeping the marker; without the
/// marker, the whole answer and an empty example.
pub open spec fn answer_parts(a: Seq<char>) -> (Seq<char>, Seq<char>) {
    match find_from(a, example_marker(), 0) {
        Some(i) => (trim_spec(a.subrange(0, i as int)), trim_spec(a.subrange(i as int, a.len() as int))),
        None => (a, Seq::empty()),
    }
}

/// Splits an answer into its rule and its example.
pub fn parse_answer(a: &str) -> (r: (String, String))
    ensures
        (r.0@, r.1@) == answer_parts(a@),
{
    let cs = chars_of(a);
    let marker = chars_of("Пример:");
    let found = find_chars(&cs, &marker);
    proof {
        lemma_find_from(cs@, marker@, 0, match found {
            Some(i) => Some(i as nat),
            None => None,
        });
    }
    match found {
        Some(i) => {
            let rule = trimmed_range(&cs, 0, i);
            let example = trimmed_range(&cs, i, cs.len());
            (rule, example)
        },
        None => (a.to_owned(), String::new()),
    }
}

/// Knowledge entries (question, answer) as character sequences.
pub open spec fn knowledge_view(ks: Seq<(String, String)>) -> Seq<(Seq<char>, Seq<char>)> {
    ks.map_values(|p: (String, String)| (p.0@, p.1@))
}

/// The similarity of two texts can be computed: their lengths together fit
/// in a `usize` (always so for texts held in memory).
pub open spec fn comparable(a: Seq<char>, b: Seq<char>) -> bool {
    a.len() + b.len() <= usize::MAX
}

/// The entry of `ks` closest to `input` with its similarity: scanning in
/// order, an entry replaces the one kept so far when its similarity is
/// strictly larger, and larger than 0.3.
pub open spec fn closest_of(input: Seq<char>, ks: Seq<(Seq<char>, Seq<char>)>) -> Option<
    ((Seq<char>, Seq<char>), (nat, nat)),
>
    decreases ks.len(),
{
    if ks.len() == 0 {
        None
    } else {
        let prev = closest_of(input, ks.drop_last());
        let e = ks.last();
        let best = match prev {
            Some((_, b)) => b,
            None => (0nat, 1nat),
        };
        let sim = similarity(input, e.0);
        if comparable(input, e.0) && frac_gt(sim, best) && frac_gt(sim, (3nat, 10nat)) {
            Some((e, sim))
        } else {
            prev
        }
    }
}

/// The knowledge entry whose question is most similar to `input` by
/// trigrams, if any is similar enough (above 0.3); the first among equals.
pub fn find_closest_concept(input: &str, knowledge: &Vec<(String, String)>) -> (r: Option<
    (String, String),
>)
    ensures
        r is Some <==> closest_of(input@, knowledge_view(knowledge@)) is Some,
        r matches Some((q, a)) ==> (closest_of(input@, knowledge_view(knowledge@))->0).0 == (q@, a@),
{
    let ghost ks = knowledge_view(knowledge@);
    let il = chars_of(input).len();
    let mut best: Option<usize> = None;
    let mut best_sim: (usize, usize) = (0, 1);
    let mut i: usize = 0;
    while i < knowledge.len()
        invariant
            i <= knowledge.len(),
            ks == knowledge_view(knowledge@),
            il == input@.len(),
            match closest_of(input@, ks.subrange(0, i as int)) {
                Some((e, sim)) => best matches Some(j) && j < i && ks[j as int] == e && (
                best_sim.0 as nat,
                best_sim.1 as nat,
                ) == sim,
                None => best is None && best_sim == (0usize, 1usize),
            },
        decreases knowledge.len() - i,
    {
        assert(ks.subrange(0, i + 1 as int).drop_last() =~= ks.subrange(0, i as int));
        assert(ks.subrange(0, i + 1 as int).last() == ks[i as int]);
        let q = &knowledge[i].0;
        let ql = chars_of(q.as_str()).len();
        if il <= usize::MAX - ql {
            let sim = trigram_similarity(input, q.as_str());
            if fraction_greater(sim, best_sim) && fraction_greater(sim, (3, 10)) {
                best = Some(i);
                best_sim = sim;
            }
        }
        i = i + 1;
    }
    assert(ks.subrange(0, knowledge.len() as int) =~= ks);
    match best {
        Some(j) => Some((knowledge[j].0.clone(), knowledge[j].1.clone())),
        None => None,
    }
}

/// The question that asks for a definition.
pub open spec fn define_prefix() -> Seq<char> {
    "что такое"@
}

/// `s` without its trailing question marks.
pub open spec fn strip_questions(s: Seq<char>) -> Seq<char>
    decreases s.len(),
{
    if s.len() > 0 && s.last() == '?' {
        strip_questions(s.drop_last())
    } else {
        s
    }
}

/// The concept a definition question asks about, before lowercasing: what
/// follows `что такое`, trimmed and without trailing question marks.
pub open spec fn concept_text(input: Seq<char>) -> Seq<char> {
    let n = define_prefix().len();
    if input.len() >= n {
        strip_questions(trim_spec(input.subrange(n as int, input.len() as int)))
    } else {
        Seq::empty()
    }
}

/// The answer stored under the question `k`: that of the first entry.
pub open spec fn answer_for(ks: Seq<(Seq<char>, Seq<char>)>, k: Seq<char>) -> Option<Seq<char>>
    decreases ks.len(),
{
    if ks.len() == 0 {
        None
    } else if ks[0].0 == k {
        Some(ks[0].1)
    } else {
        answer_for(ks.drop_first(), k)
    }
}

/// The reply to a definition question about `concept` (lowercased).
pub open spec fn define_reply(input: Seq<char>, concept: Seq<char>, ks: Seq<(Seq<char>, Seq<char>)>) -> Seq<
    char,
> {
    match answer_for(ks, concept) {
        Some(ans) => "\""@ + input + "\" — \""@ + ans + "\"."@,
        None => "Понятие \""@ + concept + "\" пока неизвестно."@,
    }
}

/// The reply in the given mode, from the closest knowledge entry.
pub open spec fn mode_reply(input: Seq<char>, mode: Seq<char>, ks: Seq<(Seq<char>, Seq<char>)>) -> Seq<
    char,
> {
    let c = closest_of(input, ks);
    if mode == "question"@ {
        match c {
            Some((e, _)) => e.0 + " — "@ + answer_parts(e.1).0 + ". "@ + answer_parts(e.1).1,
            None => "Не нашел подходящего ответа в знаниях."@,
        }
    } else if mode == "instruction"@ {
        match c {
            Some((e, _)) => "Инструкция: "@ + e.0 + ". "@ + e.1,
            None => "Не понял инструкцию."@,
        }
    } else {
        match c {
            Some((e, _)) => "Утверждение: "@ + e.0 + ". "@ + e.1,
            None => "Не нашел связи."@,
        }
    }
}

/// The reply to `input`, given its lowercase form and that of the concept a
/// definition question would ask about.
pub open spec fn reply_spec(
    input: Seq<char>,
    lower_input: Seq<char>,
    lower_concept: Seq<char>,
    ks: Seq<(Seq<char>, Seq<char>)>,
) -> Seq<char> {
    if has_prefix(lower_input, define_prefix()) {
        define_reply(input, lower_concept, ks)
    } else {
        mode_reply(input, mode_spec(lower_input), ks)
    }
}

/// The answer stored under `k`, if any.
fn answer_lookup<'a>(knowledge: &'a Vec<(String, String)>, k: &str) -> (r: Option<&'a String>)
    ensures
        r is Some <==> answer_for(knowledge_view(knowledge@), k@) is Some,
        r matches Some(a) ==> answer_for(knowledge_view(knowledge@), k@) == Some(a@),
{
    let ghost ks = knowledge_view(knowledge@);
    assert(ks.subrange(0, ks.len() as int) =~= ks);
    let kc = chars_of(k);
    let mut i: usize = 0;
    while i < knowledge.len()
        invariant
            i <= knowledge.len(),
            ks == knowledge_view(knowledge@),
            kc@ == k@,
            answer_for(ks, k@) == answer_for(ks.subrange(i as int, ks.len() as int), k@),
        decreases knowledge.len() - i,
    {
        assert(ks.subrange(i as int, ks.len() as int).drop_first() =~= ks.subrange(
            i + 1,
            ks.len() as int,
        ));
        let qc = chars_of(knowledge[i].0.as_str());
        if crate::similarity::same_chars(&qc, &kc) {
            return Some(&knowledge[i].1);
        }
        i = i + 1;
    }
    None
}

/// The concept text of a definition question, before lowercasing.
pub fn concept_of(input: &str) -> (r: String)
    ensures
        r@ == concept_text(input@),
{
    proof {
        reveal_strlit("что такое");
    }
    let cs = chars_of(input);
    if cs.len() < 9 {
        return String::new();
    }
    let t = chars_of(trimmed_range(&cs, 9, cs.len()).as_str());
    let mut b = t.len();
    assert(t@.subrange(0, t.len() as int) =~= t@);
    while b > 0 && t[b - 1] == '?'
        invariant
            b <= t.len(),
            strip_questions(t@) == strip_questions(t@.subrange(0, b as int)),
        decreases b,
    {
        assert(t@.subrange(0, b as int).drop_last() =~= t@.subrange(0, b - 1));
        b = b - 1;
    }
    let mut out: Vec<char> = Vec::new();
    let mut k: usize = 0;
    while k < b
        invariant
            k <= b,
            b <= t.len(),
            out@ == t@.subrange(0, k as int),
        decreases b - k,
    {
        out.push(t[k]);
        k = k + 1;
        assert(out@ =~= t@.subrange(0, k as int));
    }
    crate::text::string_from_chars(&out)
}

/// Builds the reply to `input` from already lowercased forms of the input
/// and of its concept text.
pub fn reply_for(
    input: &str,
    lower_input: &str,
    lower_concept: &str,
    knowledge: &Vec<(String, String)>,
) -> (r: String)
    ensures
        r@ == reply_spec(input@, lower_input@, lower_concept@, knowledge_view(knowledge@)),
{
    if starts_with_text(lower_input, "что такое") {
        let mut out = String::new();
        match answer_lookup(knowledge, lower_concept) {
            Some(ans) => {
                out.append("\"");
                out.append(input);
                out.append("\" — \"");
                out.append(ans.as_str());
                out.append("\".");
            },
            None => {
                out.append("Понятие \"");
                out.append(lower_concept);
                out.append("\" пока неизвестно.");
            },
        }
        return out;
    }
    let mode = mode_of_lowered(lower_input);
    let closest = find_closest_concept(input, knowledge);
    let mut out = String::new();
    if starts_with_text(mode, "question") && starts_with_text("question", mode) {
        proof {
            lemma_same_by_prefixes(mode@, "question"@);
        }
        match closest {
            Some((q, a)) => {
                let (rule, example) = parse_answer(a.as_str());
                out.append(q.as_str());
                out.append(" — ");
                out.append(rule.as_str());
                out.append(". ");
                out.append(example.as_str());
            },
            None => {
                out.append("Не нашел подходящего ответа в знаниях.");
            },
        }
    } else if starts_with_text(mode, "instruction") && starts_with_text("instruction", mode) {
        proof {
            lemma_same_by_prefixes(mode@, "instruction"@);
        }
        match closest {
            Some((q, a)) => {
                out.append("Инструкция: ");
                out.append(q.as_str());
                out.append(". ");
                out.append(a.as_str());
            },
            None => {
                out.append("Не понял инструкцию.");
            },
        }
    } else {
        proof {
            if mode@ == "question"@ {
                lemma_prefix_refl(mode@);
            }
            if mode@ == "instruction"@ {
                lemma_prefix_refl(mode@);
            }
        }
        match closest {
            Some((q, a)) => {
                out.append("Утверждение: ");
                out.append(q.as_str());
                out.append(". ");
                out.append(a.as_str());
            },
            None => {
                out.append("Не нашел связи.");
            },
        }
    }
    out
}

proof fn lemma_same_by_prefixes(a: Seq<char>, b: Seq<char>)
    requires
        has_prefix(a, b),
        has_prefix(b, a),
    ensures
        a == b,
{
    assert(a.subrange(0, b.len() as int) == b);
    assert(a =~= a.subrange(0, a.len() as int));
}

proof fn lemma_prefix_refl(a: Seq<char>)
    ensures
        has_prefix(a, a),
{
    assert(a.subrange(0, a.len() as int) =~= a);
}

/// Builds a reasoned reply: a definition question (`что такое ...`) is
/// answered from the stored answer of its lowercased concept; any other
/// input by its mode from the closest knowledge entry.
pub fn reason_response(input: &str, knowledge: &Vec<(String, String)>) -> (r: String)
    ensures
        r@ == reply_spec(
            input@,
            lower_of(input@),
            lower_of(concept_text(input@)),
            knowledge_view(knowledge@),
        ),
{
    let lower = lowercase(input);
    let concept = concept_of(input);
    let lower_concept = lowercase(concept.as_str());
    reply_for(input, lower.as_str(), lower_concept.as_str(), knowledge)
}

} // verus!
