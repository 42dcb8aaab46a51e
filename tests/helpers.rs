use symreg::arena::Arena;
use symreg::arith::{lex_arith, to_rpn, ArithToken};
use symreg::decode::decode_raw;
use symreg::equation::{equation_terms, LinearTerm};
use symreg::context::{interpret_contextual, words_of_interpretation};
use symreg::grammar::{interpret, parse_grammar_line, set_entry};
use symreg::indicators::IndicatorError;
use symreg::memory::Memory;
use symreg::reasoner::{Reasoner, TaskKind};
use symreg::reasoning::{
    detect_knowledge_gap, detect_mode, find_closest_concept, gap_of_lowered, mode_of_lowered, parse_answer,
    reason_response,
};
use symreg::similarity::trigram_similarity;
use symreg::tokenizer::{detokenize, tokenize};

#[test]
fn decode_keeps_readable_and_capitalises() {
    assert_eq!(decode_raw("hello#@ world"), "Hello world.");
    assert_eq!(decode_raw("ok!"), "Ok!");
    assert_eq!(decode_raw("why?"), "Why?");
    assert_eq!(decode_raw("x"), "X.");
    assert_eq!(decode_raw("###"), "(не удалось расшифровать ответ)");
    assert_eq!(decode_raw(""), "(не удалось расшифровать ответ)");
}

#[test]
fn tokenize_splits_on_space_and_punctuation() {
    assert_eq!(tokenize("Hello, world! a-b"), vec!["Hello", "world", "a", "b"]);
    assert!(tokenize("  ,, ").is_empty());
    assert_eq!(tokenize("привет мир"), vec!["привет", "мир"]);
}

#[test]
fn detokenize_joins_with_spaces() {
    let ts = vec!["a".to_string(), "bc".to_string(), "d".to_string()];
    assert_eq!(detokenize(&ts), "a bc d");
    assert_eq!(detokenize(&[]), "");
    assert_eq!(detokenize(&tokenize("one, two")), "one two");
}

#[test]
fn context_lists_recent_dialogs_newest_first() {
    let mut m = Memory::new();
    assert_eq!(m.build_context("hi"), "Q:hi");
    for i in 0..6 {
        m.save_dialog(&format!("q{}", i), &format!("a{}", i));
    }
    assert_eq!(m.dialogs().len(), 6);
    assert_eq!(
        m.build_context("now"),
        "Q:q5 A:a5\nQ:q4 A:a4\nQ:q3 A:a3\nQ:q2 A:a2\nQ:now"
    );
}

#[test]
fn modes_from_keywords() {
    assert_eq!(detect_mode("Что такое ток?"), "question");
    assert_eq!(detect_mode("Покажи пример"), "instruction");
    assert_eq!(detect_mode("Небо синее"), "statement");
    assert_eq!(detect_mode("is it?"), "question");
    assert_eq!(mode_of_lowered("сделай это"), "instruction");
}

#[test]
fn knowledge_gaps_from_keywords() {
    assert_eq!(detect_knowledge_gap("Найди Интеграл"), Some("calculus".to_string()));
    assert_eq!(detect_knowledge_gap("a DETERMINANT"), Some("algebra_advanced".to_string()));
    assert_eq!(detect_knowledge_gap("квантовая механика"), Some("physics".to_string()));
    assert_eq!(detect_knowledge_gap("погода"), None);
    assert_eq!(gap_of_lowered("предел"), Some("calculus".to_string()));
}

#[test]
fn answer_split_at_example() {
    let (r, e) = parse_answer("  Правило тут.  Пример: 2+2=4 ");
    assert_eq!(r, "Правило тут.");
    assert_eq!(e, "Пример: 2+2=4");
    let (r2, e2) = parse_answer("just a rule");
    assert_eq!(r2, "just a rule");
    assert_eq!(e2, "");
}

#[test]
fn interpret_maps_characters_to_words() {
    let g = vec![('a', "alpha".to_string()), ('b', "beta".to_string()), ('a', "other".to_string())];
    assert_eq!(interpret("AbZ", &g), "alpha beta");
    assert_eq!(interpret("zz", &g), "(непонятный ответ — требуется переобучение)");
}

#[test]
fn arena_keeps_capacity() {
    assert_eq!(Arena::new(64).capacity(), 64);
}

#[test]
fn indicator_error_message() {
    assert_eq!(IndicatorError::InvalidPeriod.message(), "invalid period");
    assert_eq!(IndicatorError::InvalidPeriod, IndicatorError::InvalidPeriod);
}

#[test]
fn grammar_lines_parse_into_entries() {
    assert_eq!(parse_grammar_line("a,alpha beta"), Some(('a', "alpha".to_string())));
    assert_eq!(parse_grammar_line(" \"b\" , \" be ta\" "), Some(('b', "be".to_string())));
    assert_eq!(parse_grammar_line("c,"), Some(('c', "".to_string())));
    assert_eq!(parse_grammar_line("no comma"), None);
    assert_eq!(parse_grammar_line("\"\",x"), None);
    assert_eq!(parse_grammar_line("key,v,w"), Some(('k', "v,w".to_string())));
    let mut g = vec![('a', "one".to_string())];
    set_entry(&mut g, 'b', "two".to_string());
    set_entry(&mut g, 'a', "three".to_string());
    assert_eq!(g, vec![('a', "three".to_string()), ('b', "two".to_string())]);
    assert_eq!(interpret("ab", &g), "three two");
}

#[test]
fn word_counts_from_word_list() {
    let mut t: Vec<(String, usize)> = vec![("a".to_string(), 2)];
    let ws = vec!["a".to_string(), "b".to_string(), "a".to_string()];
    symreg::memory_freq::update_memory_freq(&mut t, &ws);
    assert_eq!(t, vec![("a".to_string(), 4), ("b".to_string(), 1)]);
    let mut full: Vec<(String, usize)> = vec![("m".to_string(), usize::MAX)];
    symreg::memory_freq::update_memory_freq(&mut full, &["m".to_string()]);
    assert_eq!(full[0].1, usize::MAX);
}

#[test]
fn word_counts_from_interpretation() {
    assert_eq!(words_of_interpretation("cat,  dog, , cat"), vec!["cat", "dog", "cat"]);
    assert_eq!(words_of_interpretation("a,b, c"), vec!["a,b", "c"]);
    assert_eq!(words_of_interpretation("one, two, one"), vec!["one", "two", "one"]);
    assert!(words_of_interpretation("").is_empty());
    let mut t: Vec<(String, usize)> = Vec::new();
    symreg::context::update_memory_freq(&mut t, "one, two,  one ");
    assert_eq!(t, vec![("one".to_string(), 2), ("two".to_string(), 1)]);
}

fn rpn_text(expr: &str) -> Option<String> {
    let toks = lex_arith(expr)?;
    let parts: Vec<String> = to_rpn(&toks)
        .iter()
        .map(|t| match t {
            ArithToken::Num(n) => n.clone(),
            ArithToken::Op(c) => c.to_string(),
            ArithToken::LParen => "(".to_string(),
            ArithToken::RParen => ")".to_string(),
        })
        .collect();
    Some(parts.join(" "))
}

#[test]
fn arithmetic_to_reverse_polish() {
    assert_eq!(rpn_text("2*(3+4)"), Some("2 3 4 + *".to_string()));
    assert_eq!(rpn_text("1 - 2 - 3"), Some("1 2 - 3 -".to_string()));
    assert_eq!(rpn_text("1+2*3/4"), Some("1 2 3 * 4 / +".to_string()));
    assert_eq!(rpn_text("(1+2"), Some("1 2 + (".to_string()));
    assert_eq!(rpn_text("1.5 + 2.25"), Some("1.5 2.25 +".to_string()));
    assert_eq!(rpn_text("2x"), None);
    assert_eq!(rpn_text(""), Some("".to_string()));
    assert_eq!(lex_arith("12 )").map(|v| v.len()), Some(2));
}

fn kb(pairs: &[(&str, &str)]) -> Vec<(String, String)> {
    pairs.iter().map(|(q, a)| (q.to_string(), a.to_string())).collect()
}

#[test]
fn trigram_similarity_is_jaccard() {
    assert_eq!(trigram_similarity("abcd", "abcd"), (2, 2));
    assert_eq!(trigram_similarity("abcd", "bcde"), (1, 3));
    assert_eq!(trigram_similarity("ab", "xy"), (1, 1));
    assert_eq!(trigram_similarity("aaaa", "aaa"), (1, 1));
    assert_eq!(trigram_similarity("abc", "xyz"), (0, 2));
}

#[test]
fn closest_concept_prefers_most_similar_first() {
    let k = kb(&[("abcdxx", "1"), ("abcdef", "2"), ("abcdef", "3")]);
    assert_eq!(find_closest_concept("abcdef", &k), Some(("abcdef".to_string(), "2".to_string())));
    assert_eq!(find_closest_concept("zzzz", &k), None);
    let weak = kb(&[("abcdefghij", "x")]);
    assert_eq!(find_closest_concept("abcd", &weak), None);
}

#[test]
fn replies_by_mode_and_definition() {
    let k = kb(&[
        ("ток", "движение зарядов"),
        ("как сделать чай", "Налей воду. Пример: кипяток"),
    ]);
    assert_eq!(reason_response("Что такое ток?", &k), "\"Что такое ток?\" — \"движение зарядов\".");
    assert_eq!(reason_response("Что такое масса?", &k), "Понятие \"масса\" пока неизвестно.");
    assert_eq!(
        reason_response("как сделать чай?", &k),
        "как сделать чай — Налей воду.. Пример: кипяток"
    );
    assert_eq!(reason_response("покажи как сделать чай", &k), "Инструкция: как сделать чай. Налей воду. Пример: кипяток");
    assert_eq!(reason_response("zzz", &k), "Не нашел связи.");
    assert_eq!(reason_response("кто здесь", &k), "Не нашел подходящего ответа в знаниях.");
}

#[test]
fn contextual_interpretation_ranks_by_frequency() {
    let g = vec![
        ('a', "alpha".to_string()),
        ('b', "beta".to_string()),
        ('c', "gamma".to_string()),
        ('d', "alpha".to_string()),
    ];
    assert_eq!(interpret_contextual("abbcAd", &g), "alpha, beta, gamma");
    assert_eq!(interpret_contextual("cb", &g), "gamma, beta");
    assert_eq!(interpret_contextual("zz", &g), "");
    let many: Vec<(char, String)> = ('a'..='l').map(|c| (c, format!("w{}", c))).collect();
    let out = interpret_contextual("abcdefghijkll", &many);
    assert_eq!(out, "wl, wa, wb, wc, wd, we, wf, wg, wh, wi");
}

fn terms_text(ts: &[LinearTerm]) -> Vec<String> {
    ts.iter()
        .map(|t| format!("{}{}{}", if t.negative { "-" } else { "+" }, t.text, if t.has_x { "x" } else { "" }))
        .collect()
}

#[test]
fn equation_sides_split_into_signed_terms() {
    let (l, r) = equation_terms("2x + 3 = 7").unwrap();
    assert_eq!(terms_text(&l), vec!["+2x", "+3"]);
    assert_eq!(terms_text(&r), vec!["+7"]);
    let (l2, r2) = equation_terms("-x - 4 = x2 - -1").unwrap();
    assert_eq!(terms_text(&l2), vec!["-x", "-4"]);
    assert_eq!(terms_text(&r2), vec!["+2x", "-1"]);
    assert!(equation_terms("2x + 3").is_none());
    assert!(equation_terms("a = b = c").is_none());
    let (l3, r3) = equation_terms("=").unwrap();
    assert!(l3.is_empty() && r3.is_empty());
}

#[test]
fn reasoner_recognises_task_kinds() {
    assert_eq!(Reasoner::kind_of("( x + 2 ) * ( x - 2 )"), TaskKind::DifferenceOfSquares);
    assert_eq!(Reasoner::kind_of("2x + 3 = 7"), TaskKind::Equation);
    assert_eq!(Reasoner::kind_of("Найди ИНТЕГРАЛ x^2"), TaskKind::Integral);
    assert_eq!(Reasoner::kind_of("2 + 2 * 3"), TaskKind::Arithmetic);
    assert_eq!(Reasoner::kind_of("посчитай 2 + 2"), TaskKind::Unknown);
    assert_eq!(Reasoner::kind_of("hello"), TaskKind::Unknown);
    assert_eq!(Reasoner::kind_of_lowered("1+1", "1+1", true), TaskKind::Unknown);
}

#[test]
fn reasoner_fixed_answers_and_intros() {
    assert_eq!(Reasoner::fixed_answer(TaskKind::DifferenceOfSquares), Some("x^2 - 4".to_string()));
    assert_eq!(Reasoner::fixed_answer(TaskKind::Unknown), Some("непонятно".to_string()));
    assert_eq!(Reasoner::fixed_answer(TaskKind::Equation), None);
    assert_eq!(Reasoner::fixed_answer(TaskKind::Arithmetic), None);
    assert!(Reasoner::intro(TaskKind::Integral).starts_with("📘 Распознано: задача на интеграл."));
    assert!(Reasoner::intro(TaskKind::Unknown).ends_with("\n"));
}
