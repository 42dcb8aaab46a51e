//! Arithmetic expressions with `+ - * /` and parentheses: the lexer and the
//! conversion to reverse Polish notation (shunting-yard). Numbers stay as
//! their text; reading and computing them is the caller's business.

use crate::text::{chars_of, is_white_space, string_from_chars, white_space};
use vstd::prelude::*;

verus! {

/// A token of an arithmetic expression.
pub enum ArithToken {
    /// A run of digits and dots, as written.
    Num(String),
    /// One of `+ - * /`, or, in reverse Polish output, an unmatched `(`.
    Op(char),
    LParen,
    RParen,
}

/// A token as plain values.
pub enum TokenSpec {
    Num(Seq<char>),
    Op(char),
    LParen,
    RParen,
}

impl ArithToken {
    pub open spec fn as_spec(self) -> TokenSpec {
        match self {
            ArithToken::Num(s) => TokenSpec::Num(s@),
            ArithToken::Op(c) => TokenSpec::Op(c),
            ArithToken::LParen => TokenSpec::LParen,
            ArithToken::RParen => TokenSpec::RParen,
        }
    }
}

/// The tokens as plain values.
pub open spec fn tokens_view(ts: Seq<ArithToken>) -> Seq<TokenSpec> {
    ts.map_values(|t: ArithToken| t.as_spec())
}

/// A character of a number.
pub open spec fn number_char(c: char) -> bool {
    ('0' <= c <= '9') || c == '.'
}

/// An operator character.
pub open spec fn op_char(c: char) -> bool {
    c == '+' || c == '-' || c == '*' || c == '/'
}

/// Length of the run of number characters that begins `s`.
pub open spec fn number_run(s: Seq<char>) -> nat
    decreases s.len(),
{
    if s.len() > 0 && number_char(s[0]) {
        1 + number_run(s.drop_first())
    } else {
        0
    }
}

/// The tokens of `s`, or `None` if it holds a character that is neither
/// whitespace, a number character, an operator nor a parenthesis.
pub open spec fn lex(s: Seq<char>) -> Option<Seq<TokenSpec>>
    decreases s.len(),
{
    if s.len() == 0 {
        Some(Seq::empty())
    } else {
        let c = s[0];
        let (n, t) = if number_char(c) {
            (number_run(s), TokenSpec::Num(s.subrange(0, number_run(s) as int)))
        } else if op_char(c) {
            (1nat, TokenSpec::Op(c))
        } else if c == '(' {
            (1nat, TokenSpec::LParen)
        } else {
            (1nat, TokenSpec::RParen)
        };
        if white_space(c) {
            lex(s.drop_first())
        } else if number_char(c) || op_char(c) || c == '(' || c == ')' {
            if 0 < n <= s.len() {
                match lex(s.subrange(n as int, s.len() as int)) {
                    Some(r) => Some(seq![t] + r),
                    None => None,
                }
            } else {
                None
            }
        } else {
            None
        }
    }
}

proof fn lemma_number_run(s: Seq<char>, k: int)
    requires
        0 <= k <= s.len(),
        forall|j: int| 0 <= j < k ==> number_char(s[j]),
        k == s.len() || !number_char(s[k]),
    ensures
        number_run(s) == k,
    decreases k,
{
    if k > 0 {
        lemma_number_run(s.drop_first(), k - 1);
    }
}

proof fn lemma_number_run_bounds(s: Seq<char>)
    ensures
        number_run(s) <= s.len(),
        s.len() > 0 && number_char(s[0]) ==> number_run(s) > 0,
    decreases s.len(),
{
    if s.len() > 0 && number_char(s[0]) {
        lemma_number_run_bounds(s.drop_first());
    }
}

/// Appends the tokens of the characters `i..` of `cs` to `out`; false if
/// they do not lex.
fn lex_from(cs: &Vec<char>, i: usize, out: &mut Vec<ArithToken>) -> (r: bool)
    requires
        i <= cs.len(),
    ensures
        r == lex(cs@.subrange(i as int, cs.len() as int)) is Some,
        r ==> Some(tokens_view(final(out)@)) == match lex(cs@.subrange(i as int, cs.len() as int)) {
            Some(t) => Some(tokens_view(old(out)@) + t),
            None => None,
        },
    decreases cs.len() - i,
{
    let ghost s = cs@.subrange(i as int, cs.len() as int);
    if i == cs.len() {
        assert(tokens_view(out@) + Seq::<TokenSpec>::empty() =~= tokens_view(out@));
        return true;
    }
    let c = cs[i];
    if is_white_space(c) {
        assert(s.drop_first() =~= cs@.subrange(i + 1, cs.len() as int));
        return lex_from(cs, i + 1, out);
    }
    let mut j = i;
    let tok: ArithToken;
    if ('0' <= c && c <= '9') || c == '.' {
        let mut num: Vec<char> = Vec::new();
        while j < cs.len() && (('0' <= cs[j] && cs[j] <= '9') || cs[j] == '.')
            invariant
                i <= j <= cs.len(),
                num@ == cs@.subrange(i as int, j as int),
                forall|q: int| i <= q < j ==> number_char(#[trigger] cs@[q]),
            decreases cs.len() - j,
        {
            num.push(cs[j]);
            j = j + 1;
            assert(num@ =~= cs@.subrange(i as int, j as int));
        }
        proof {
            lemma_number_run(s, j - i);
            assert(num@ =~= s.subrange(0, j - i));
        }
        tok = ArithToken::Num(string_from_chars(&num));
    } else if c == '+' || c == '-' || c == '*' || c == '/' {
        j = i + 1;
        tok = ArithToken::Op(c);
    } else if c == '(' {
        j = i + 1;
        tok = ArithToken::LParen;
    } else if c == ')' {
        j = i + 1;
        tok = ArithToken::RParen;
    } else {
        return false;
    }
    proof {
        lemma_number_run_bounds(s);
    }
    assert(s.subrange((j - i) as int, s.len() as int) =~= cs@.subrange(j as int, cs.len() as int));
    let ghost before = tokens_view(out@);
    let ghost tv = tok.as_spec();
    out.push(tok);
    assert(tokens_view(out@) =~= before.push(tv));
    let ok = lex_from(cs, j, out);
    proof {
        if ok {
            let rest = lex(cs@.subrange(j as int, cs.len() as int))->0;
            assert(before.push(tv) + rest =~= before + (seq![tv] + rest));
        }
    }
    ok
}

/// The tokens of an arithmetic expression, or `None` if it holds another
/// character.
pub fn lex_arith(expr: &str) -> (r: Option<Vec<ArithToken>>)
    ensures
        r is Some <==> lex(expr@) is Some,
        r matches Some(v) ==> lex(expr@) == Some(tokens_view(v@)),
{
    let cs = chars_of(expr);
    assert(cs@.subrange(0, cs.len() as int) =~= cs@);
    let mut out: Vec<ArithToken> = Vec::new();
    if lex_from(&cs, 0, &mut out) {
        assert(tokens_view(Seq::<ArithToken>::empty()) =~= Seq::<TokenSpec>::empty());
        assert(Seq::<TokenSpec>::empty() + lex(expr@)->0 =~= lex(expr@)->0);
        Some(out)
    } else {
        None
    }
}

/// How tightly an operator binds: `* /` over `+ -`; anything else not at all.
pub open spec fn prec(op: char) -> int {
    if op == '+' || op == '-' {
        1
    } else if op == '*' || op == '/' {
        2
    } else {
        0
    }
}

/// Output and operator stack of the conversion.
pub type Shunt = (Seq<TokenSpec>, Seq<char>);

/// An operator as an output token.
pub open spec fn op_token(c: char) -> TokenSpec {
    TokenSpec::Op(c)
}

/// The top `k` operators of the stack, top first, as output tokens.
pub open spec fn top_ops(ops: Seq<char>, k: nat) -> Seq<TokenSpec> {
    Seq::new(k, |j: int| op_token(ops[ops.len() - 1 - j]))
}

/// How many operators at the top of the stack, above any `(`, bind at
/// least as tightly as `op`.
pub open spec fn binding_run(ops: Seq<char>, op: char) -> nat
    decreases ops.len(),
{
    if ops.len() > 0 && ops.last() != '(' && prec(ops.last()) >= prec(op) {
        1 + binding_run(ops.drop_last(), op)
    } else {
        0
    }
}

/// How many operators lie above the nearest `(` (all of them if none).
pub open spec fn group_run(ops: Seq<char>) -> nat
    decreases ops.len(),
{
    if ops.len() > 0 && ops.last() != '(' {
        1 + group_run(ops.drop_last())
    } else {
        0
    }
}

/// Moves the operators that bind at least as tightly as `op` from the top
/// of the stack to the output.
pub open spec fn pop_binding(out: Seq<TokenSpec>, ops: Seq<char>, op: char) -> Shunt {
    let k = binding_run(ops, op);
    (out + top_ops(ops, k), ops.subrange(0, ops.len() - k))
}

/// Moves the operators above the nearest `(` to the output and drops the
/// `(` itself.
pub open spec fn pop_group(out: Seq<TokenSpec>, ops: Seq<char>) -> Shunt {
    let k = group_run(ops);
    let rest = ops.subrange(0, ops.len() - k);
    (out + top_ops(ops, k), if rest.len() > 0 {
        rest.drop_last()
    } else {
        rest
    })
}

/// One token of the conversion.
pub open spec fn shunt_step(st: Shunt, t: TokenSpec) -> Shunt {
    match t {
        TokenSpec::Num(_) => (st.0.push(t), st.1),
        TokenSpec::Op(op) => {
            let p = pop_binding(st.0, st.1, op);
            (p.0, p.1.push(op))
        },
        TokenSpec::LParen => (st.0, st.1.push('(')),
        TokenSpec::RParen => pop_group(st.0, st.1),
    }
}

/// The conversion state after the tokens `ts`.
pub open spec fn shunt(ts: Seq<TokenSpec>) -> Shunt
    decreases ts.len(),
{
    if ts.len() == 0 {
        (Seq::empty(), Seq::empty())
    } else {
        shunt_step(shunt(ts.drop_last()), ts.last())
    }
}

/// The reverse Polish form of the tokens `ts` (shunting-yard, all operators
/// left-associative). An unmatched `(` ends up in the output as `Op('(')`.
pub open spec fn rpn(ts: Seq<TokenSpec>) -> Seq<TokenSpec> {
    shunt(ts).0 + top_ops(shunt(ts).1, shunt(ts).1.len())
}

fn prec_of(op: char) -> (r: i32)
    ensures
        r == prec(op),
{
    if op == '+' || op == '-' {
        1
    } else if op == '*' || op == '/' {
        2
    } else {
        0
    }
}

fn push_op(out: &mut Vec<ArithToken>, op: char)
    ensures
        tokens_view(final(out)@) == tokens_view(old(out)@).push(TokenSpec::Op(op)),
{
    let t = ArithToken::Op(op);
    assert(t.as_spec() == TokenSpec::Op(op));
    out.push(t);
    assert(tokens_view(out@) =~= tokens_view(old(out)@).push(TokenSpec::Op(op)));
}

fn copy_token(t: &ArithToken) -> (r: ArithToken)
    ensures
        r.as_spec() == t.as_spec(),
{
    match t {
        ArithToken::Num(s) => ArithToken::Num(s.clone()),
        ArithToken::Op(c) => ArithToken::Op(*c),
        ArithToken::LParen => ArithToken::LParen,
        ArithToken::RParen => ArithToken::RParen,
    }
}

/// Converts tokens to reverse Polish notation by the shunting-yard rules.
pub fn to_rpn(tokens: &Vec<ArithToken>) -> (r: Vec<ArithToken>)
    ensures
        tokens_view(r@) == rpn(tokens_view(tokens@)),
{
    let ghost tv = tokens_view(tokens@);
    let mut out: Vec<ArithToken> = Vec::new();
    let mut ops: Vec<char> = Vec::new();
    let mut i: usize = 0;
    assert(tokens_view(out@) =~= Seq::<TokenSpec>::empty());
    assert(tv.subrange(0, 0) =~= Seq::<TokenSpec>::empty());
    while i < tokens.len()
        invariant
            i <= tokens.len(),
            tv == tokens_view(tokens@),
            (tokens_view(out@), ops@) == shunt(tv.subrange(0, i as int)),
        decreases tokens.len() - i,
    {
        assert(tv.subrange(0, i + 1 as int).drop_last() =~= tv.subrange(0, i as int));
        assert(tv.subrange(0, i + 1 as int).last() == tokens@[i as int].as_spec());
        match &tokens[i] {
            ArithToken::Op(op) => {
                let op = *op;
                let ghost out0 = tokens_view(out@);
                let ghost ops0 = ops@;
                let n0 = ops.len();
                let mut k: usize = 0;
                assert(out0 + top_ops(ops0, 0) =~= out0);
                while ops.len() > 0 && ops[ops.len() - 1] != '(' && prec_of(ops[ops.len() - 1])
                    >= prec_of(op)
                    invariant
                        k <= ops0.len(),
                        ops0.len() == n0,
                        ops0.len() == ops.len() + k,
                        ops@ == ops0.subrange(0, ops0.len() - k),
                        tokens_view(out@) == out0 + top_ops(ops0, k as nat),
                        binding_run(ops0, op) == k + binding_run(ops@, op),
                    decreases ops.len(),
                {
                    let ghost before = ops@;
                    let top = ops.pop().unwrap();
                    assert(ops@ == before.drop_last() && top == before.last());
                    assert(ops@ =~= ops0.subrange(0, ops0.len() - (k + 1)));
        assert(top == ops0[ops0.len() - 1 - k]);
                    assert(top == ops0[ops0.len() - 1 - k]);
                    let ghost prev = tokens_view(out@);
                    push_op(&mut out, top);
                    assert(top_ops(ops0, (k + 1) as nat) =~= top_ops(ops0, k as nat).push(
                        op_token(top),
                    ));
                    assert(tokens_view(out@) =~= out0 + top_ops(ops0, (k + 1) as nat));
                    k = k + 1;
                }
                ops.push(op);
            },
            ArithToken::LParen => {
                ops.push('(');
            },
            ArithToken::RParen => {
                let ghost out0 = tokens_view(out@);
                let ghost ops0 = ops@;
                let n0 = ops.len();
                let mut k: usize = 0;
                assert(out0 + top_ops(ops0, 0) =~= out0);
                while ops.len() > 0 && ops[ops.len() - 1] != '('
                    invariant
                        k <= ops0.len(),
                        ops0.len() == n0,
                        ops0.len() == ops.len() + k,
                        ops@ == ops0.subrange(0, ops0.len() - k),
                        tokens_view(out@) == out0 + top_ops(ops0, k as nat),
                        group_run(ops0) == k + group_run(ops@),
                    decreases ops.len(),
                {
                    let ghost before = ops@;
                    let top = ops.pop().unwrap();
                    assert(ops@ == before.drop_last() && top == before.last());
                    assert(ops@ =~= ops0.subrange(0, ops0.len() - (k + 1)));
        assert(top == ops0[ops0.len() - 1 - k]);
                    assert(top == ops0[ops0.len() - 1 - k]);
                    let ghost prev = tokens_view(out@);
                    push_op(&mut out, top);
                    assert(top_ops(ops0, (k + 1) as nat) =~= top_ops(ops0, k as nat).push(
                        op_token(top),
                    ));
                    assert(tokens_view(out@) =~= out0 + top_ops(ops0, (k + 1) as nat));
                    k = k + 1;
                }
                if ops.len() > 0 {
                    ops.pop();
                }
            },
            ArithToken::Num(_) => {
                let ghost before = tokens_view(out@);
                let t = copy_token(&tokens[i]);
                out.push(t);
                assert(tokens_view(out@) =~= before.push(tokens@[i as int].as_spec()));
            },
        }
        i = i + 1;
    }
    assert(tv.subrange(0, tokens.len() as int) =~= tv);
    let ghost out0 = tokens_view(out@);
    let ghost ops0 = ops@;
    let n0 = ops.len();
    let mut k: usize = 0;
    assert(out0 + top_ops(ops0, 0) =~= out0);
    while ops.len() > 0
        invariant
            k <= ops0.len(),
            ops0.len() == n0,
            ops0.len() == ops.len() + k,
            ops@ == ops0.subrange(0, ops0.len() - k),
            tokens_view(out@) == out0 + top_ops(ops0, k as nat),
        decreases ops.len(),
    {
        let ghost before = ops@;
        let top = ops.pop().unwrap();
        assert(ops@ == before.drop_last() && top == before.last());
        assert(ops@ =~= ops0.subrange(0, ops0.len() - (k + 1)));
        assert(top == ops0[ops0.len() - 1 - k]);
        push_op(&mut out, top);
        assert(top_ops(ops0, (k + 1) as nat) =~= top_ops(ops0, k as nat).push(op_token(top)));
        assert(tokens_view(out@) =~= out0 + top_ops(ops0, (k + 1) as nat));
        k = k + 1;
    }
    out
}

} // verus!
