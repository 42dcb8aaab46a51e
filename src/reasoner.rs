//! The reasoner: recognises what kind of task an input poses, so that the
//! matching stepwise explanation can be given.

use crate::equation::{unspaced, without_spaces};
use crate::text::{chars_of, contains_text, has_infix, lower_of, lowercase, string_from_chars, string_of};
use vstd::prelude::*;

verus! {

/// Stepwise explanation of small tasks.
pub struct Reasoner;

/// The kinds of task the reasoner knows.
#[derive(Debug, PartialEq, Eq, Structural, Clone, Copy)]
pub enum TaskKind {
    /// A product `(a+b)*(a-b)`, simplified to a difference of squares.
    DifferenceOfSquares,
    /// An equation, solved for `x` when it has one.
    Equation,
    /// An integral.
    Integral,
    /// Plain arithmetic without letters.
    Arithmetic,
    /// Anything else.
    Unknown,
}

/// Unicode's Alphabetic property.
pub uninterp spec fn alphabetic(c: char) -> bool;

/// Relies on `char::is_alphabetic`: the Alphabetic property of `c`.
#[verifier::external_body]
fn is_alphabetic(c: char) -> (r: bool)
    ensures
        r == alphabetic(c),
{
    c.is_alphabetic()
}

/// Some character of `s` is alphabetic.
pub open spec fn has_letter(s: Seq<char>) -> bool {
    exists|i: int| 0 <= i < s.len() && #[trigger] alphabetic(s[i])
}

/// The kind of task `input` poses, given its lowercase form and whether it
/// holds a letter.
pub open spec fn kind_spec(input: Seq<char>, lower: Seq<char>, letter: bool) -> TaskKind {
    let n = without_spaces(input);
    if has_infix(n, "(x+2)*(x-2)"@) || has_infix(n, "(a+b)*(a-b)"@) {
        TaskKind::DifferenceOfSquares
    } else if has_infix(input, "="@) {
        TaskKind::Equation
    } else if has_infix(lower, "интеграл"@) {
        TaskKind::Integral
    } else if (has_infix(input, "+"@) || has_infix(input, "-"@) || has_infix(input, "*"@)
        || has_infix(input, "/"@)) && !letter {
        TaskKind::Arithmetic
    } else {
        TaskKind::Unknown
    }
}

/// The opening lines of the reasoning for a task of the given kind.
pub open spec fn intro_text(kind: TaskKind) -> Seq<char> {
    match kind {
        TaskKind::DifferenceOfSquares => "📘 Распознано: пример вида (a+b)*(a-b).\n➡️ Применяю формулу разности квадратов: (a+b)(a-b)=a^2-b^2.\nРезультат: x^2 - 4\n"@,
        TaskKind::Equation => "📘 Распознано: уравнение.\n➡️ Преобразую выражение и решаю относительно x.\n"@,
        TaskKind::Integral => "📘 Распознано: задача на интеграл.\n🧠 Интегралы пока решаются символически позже.\n"@,
        TaskKind::Arithmetic => "📘 Распознано: арифметическое выражение.\n➡️ Выполняю пошаговое вычисление.\n"@,
        TaskKind::Unknown => "🤔 Неизвестный тип задачи.\n"@,
    }
}

/// The answer to a task of the given kind when it needs no computation.
pub open spec fn fixed_answer_text(kind: TaskKind) -> Option<Seq<char>> {
    match kind {
        TaskKind::DifferenceOfSquares => Some("x^2 - 4"@),
        TaskKind::Integral => Some("интеграл вычисляется позже"@),
        TaskKind::Unknown => Some("непонятно"@),
        _ => None,
    }
}

impl Reasoner {
    /// The kind of task, given the lowercased input and whether it holds a
    /// letter.
    pub fn kind_of_lowered(input: &str, lower: &str, letter: bool) -> (r: TaskKind)
        ensures
            r == kind_spec(input@, lower@, letter),
    {
        let cs = chars_of(input);
        let n = unspaced(&cs, 0, cs.len());
        assert(cs@.subrange(0, cs.len() as int) =~= cs@);
        let ns = string_from_chars(&n);
        if contains_text(ns.as_str(), "(x+2)*(x-2)") || contains_text(ns.as_str(), "(a+b)*(a-b)") {
            TaskKind::DifferenceOfSquares
        } else if contains_text(input, "=") {
            TaskKind::Equation
        } else if contains_text(lower, "интеграл") {
            TaskKind::Integral
        } else if (contains_text(input, "+") || contains_text(input, "-") || contains_text(input, "*")
            || contains_text(input, "/")) && !letter {
            TaskKind::Arithmetic
        } else {
            TaskKind::Unknown
        }
    }

    /// The opening lines of the reasoning for a task of kind `kind`.
    pub fn intro(kind: TaskKind) -> (r: String)
        ensures
            r@ == intro_text(kind),
    {
        match kind {
            TaskKind::DifferenceOfSquares => string_of("📘 Распознано: пример вида (a+b)*(a-b).\n➡️ Применяю формулу разности квадратов: (a+b)(a-b)=a^2-b^2.\nРезультат: x^2 - 4\n"),
            TaskKind::Equation => string_of("📘 Распознано: уравнение.\n➡️ Преобразую выражение и решаю относительно x.\n"),
            TaskKind::Integral => string_of("📘 Распознано: задача на интеграл.\n🧠 Интегралы пока решаются символически позже.\n"),
            TaskKind::Arithmetic => string_of("📘 Распознано: арифметическое выражение.\n➡️ Выполняю пошаговое вычисление.\n"),
            TaskKind::Unknown => string_of("🤔 Неизвестный тип задачи.\n"),
        }
    }

    /// The answer for a kind of task that needs no computation: the
    /// simplified difference of squares, a deferred integral, or "unclear";
    /// `None` for equations and arithmetic, which have to be computed.
    pub fn fixed_answer(kind: TaskKind) -> (r: Option<String>)
        ensures
            r is Some <==> fixed_answer_text(kind) is Some,
            r matches Some(a) ==> fixed_answer_text(kind) == Some(a@),
    {
        match kind {
            TaskKind::DifferenceOfSquares => Some(string_of("x^2 - 4")),
            TaskKind::Integral => Some(string_of("интеграл вычисляется позже")),
            TaskKind::Unknown => Some(string_of("непонятно")),
            _ => None,
        }
    }

    /// Recognises the kind of task `input` poses: a difference of squares
    /// (spaces ignored), an equation, an integral (by its lowercased
    /// keyword), letter-free arithmetic, or none of these.
    pub fn kind_of(input: &str) -> (r: TaskKind)
        ensures
            r == kind_spec(input@, lower_of(input@), has_letter(input@)),
    {
        let cs = chars_of(input);
        let mut letter = false;
        let mut i: usize = 0;
        while i < cs.len()
            invariant
                i <= cs.len(),
                cs@ == input@,
                letter == exists|j: int| 0 <= j < i && #[trigger] alphabetic(cs@[j]),
            decreases cs.len() - i,
        {
            if is_alphabetic(cs[i]) {
                letter = true;
            }
            i = i + 1;
        }
        let lower = lowercase(input);
        Reasoner::kind_of_lowered(input, lower.as_str(), letter)
    }
}

} // verus!
