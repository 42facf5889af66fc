//! A verified arithmetic expression evaluator.
//!
//! One line of text is turned into a signed integer in three stages, each a
//! pure function of its input: the lexer ([`tokenizer`]) turns text into a
//! token sequence, the parser ([`parser`]) turns the tokens into an expression
//! tree with the usual precedence (multiplication and division bind tighter
//! than addition and subtraction; unary negation and parentheses bind
//! tightest), and the evaluator ([`eval`]) folds the tree into an `i32`.
//!
//! Chains of same-precedence operators group to the right: `1 - 2 - 3` parses
//! as `1 - (2 - 3)`. Division truncates toward zero. Division by zero and any
//! intermediate result outside the `i32` range are reported as an
//! [`eval::EvalFault`] rather than wrapping or panicking.
//!
//! The parser and the evaluator recurse over the expression, so their stack
//! use grows with the nesting depth of the input; no explicit depth limit is
//! imposed.

pub mod eval;
pub mod parser;
pub mod tokenizer;

use vstd::prelude::*;

use crate::eval::eval_node_spec;
use crate::eval::Eval;
use crate::eval::EvalFault;
use crate::parser::all_digits;
use crate::parser::digits_val;
use crate::parser::lemma_digits_val_nonneg;
use crate::parser::parse_expr_spec;
use crate::parser::parse_factor_spec;
use crate::parser::parse_spec;
use crate::parser::parse_term_spec;
use crate::parser::Node;
use crate::parser::Parser;
use crate::parser::ParserError;
use crate::tokenizer::lemma_digit_run_is;
use crate::tokenizer::lex_cons;
use crate::tokenizer::lex_from;
use crate::tokenizer::lex_spec;
use crate::tokenizer::Lexeme;
use crate::tokenizer::Tokenizer;
use crate::tokenizer::TokenizerError;

verus! {

/// How a line can fail, stage by stage: at the lexer with the 1-based column
/// of the unrecognized character, at the parser with its message, or at the
/// evaluator with an arithmetic fault.
pub enum RunError {
    Lex(int),
    Syntax(Seq<char>),
    Fault(EvalFault),
}

/// The outcome of the whole pipeline on one line of text: its value as an
/// integer, or the failure of the first stage that rejects it.
pub open spec fn run_spec(s: Seq<char>) -> Result<int, RunError> {
    match lex_spec(s) {
        Err(bad) => Err(RunError::Lex(1 + bad)),
        Ok(toks) => match parse_spec(toks) {
            Err(m) => Err(RunError::Syntax(m)),
            Ok(n) => match eval_node_spec(n) {
                Ok(v) => Ok(v),
                Err(f) => Err(RunError::Fault(f)),
            },
        },
    }
}

/// A failure from any stage of [`evaluate_line`].
#[derive(Debug)]
pub enum LineError {
    Lex(TokenizerError),
    Syntax(ParserError),
    Fault(EvalFault),
}

/// Runs the three stages on one line of text, short-circuiting on the first
/// failure. The outcome is exactly [`run_spec`] of the text.
pub fn evaluate_line(text: &str) -> (r: Result<i32, LineError>)
    requires
        text@.len() + 1 <= u32::MAX as int,
    ensures
        (match run_spec(text@) {
            Ok(v) => r matches Ok(x) && x as int == v,
            Err(RunError::Lex(col)) => r matches Err(LineError::Lex(e)) && e.col as int == col
                && e.line == 1,
            Err(RunError::Syntax(m)) => r matches Err(LineError::Syntax(e)) && e@ == m,
            Err(RunError::Fault(f)) => r matches Err(LineError::Fault(g)) && g == f,
        }),
{
    let mut tokenizer = Tokenizer::new(text);
    let toks = match tokenizer.tokenize() {
        Ok(t) => t,
        Err(e) => {
            return Err(LineError::Lex(e));
        },
    };
    let parser = Parser::new(toks);
    let node = match parser.parse() {
        Ok(n) => n,
        Err(e) => {
            return Err(LineError::Syntax(e));
        },
    };
    match Eval::new().eval(&node) {
        Ok(v) => Ok(v),
        Err(f) => Err(LineError::Fault(f)),
    }
}

/// Law: the pipeline keeps no state between calls, so the same text always
/// yields the same value or the same failure.
pub proof fn lemma_run_deterministic(s1: Seq<char>, s2: Seq<char>)
    requires
        s1 == s2,
    ensures
        run_spec(s1) == run_spec(s2),
{
}

/// Law: a line consisting solely of one non-negative integer literal
/// evaluates to that literal's value. A literal above `i32::MAX` does not
/// evaluate — the parser rejects it — so it is left out here.
pub proof fn lemma_literal_line_value(s: Seq<char>)
    requires
        s.len() > 0,
        all_digits(s),
        digits_val(s) <= i32::MAX as int,
    ensures
        run_spec(s) == Ok::<int, RunError>(digits_val(s)),
{
    let len = s.len() as int;
    lemma_digit_run_is(s, 0, len);
    lemma_digits_val_nonneg(s);
    assert(s.subrange(0, len) =~= s);
    assert(lex_from(s, len) == Ok::<Seq<Lexeme>, int>(Seq::empty()));
    assert(lex_from(s, 0) == lex_cons(Lexeme::Number(s), lex_from(s, len)));
    let toks = seq![Lexeme::Number(s)] + Seq::<Lexeme>::empty();
    assert(lex_spec(s) == Ok::<Seq<Lexeme>, int>(toks));
    assert(toks.len() == 1 && toks[0] == Lexeme::Number(s));
    let node = Node::Number(digits_val(s) as i32);
    assert(parse_factor_spec(toks, 0) == Ok::<(Node, nat), Seq<char>>((node, 1nat)));
    assert(parse_term_spec(toks, 0) == Ok::<(Node, nat), Seq<char>>((node, 1nat)));
    assert(parse_expr_spec(toks, 0) == Ok::<(Node, nat), Seq<char>>((node, 1nat)));
    assert(parse_spec(toks) == Ok::<Node, Seq<char>>(node));
    assert(eval_node_spec(node) == Ok::<int, EvalFault>(digits_val(s)));
}

} // verus!
