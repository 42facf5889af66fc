//! Syntactic analysis: tokens to an expression tree.
//!
//! [`Parser::parse`] consumes the whole token sequence and produces one
//! [`Node`], or fails with a [`ParserError`] at the first structural
//! violation. The grammar has three precedence levels, low to high:
//!
//! ```text
//! expr   -> term (('+' | '-') expr)?
//! term   -> factor (('*' | '/') term)?
//! factor -> Number | '-' factor | '(' expr ')'
//! ```
//!
//! The additive and multiplicative productions recurse into the remaining
//! expression rather than folding a left operand chain, so chains of
//! same-precedence operators group to the right: `1 - 2 - 3` parses as
//! `1 - (2 - 3)`. This grouping is deliberate and is pinned down by
//! [`parse_expr_spec`] and exercised by the tests.
//!
//! The exact result, success or failure, is decided by [`parse_spec`].

use vstd::prelude::*;
use vstd::string::StrSliceExecFns;
use vstd::string::StringExecFns;

use crate::tokenizer::is_digit;
use crate::tokenizer::lexeme_text;
use crate::tokenizer::lexemes_of;
use crate::tokenizer::Lexeme;
use crate::tokenizer::Token;

verus! {

/// An operator with two operands.
#[derive(Debug, Clone, PartialEq, Eq)]
pub enum BinaryOperator {
    Plus,
    Minus,
    Mul,
    Div,
}

/// An operator with one operand.
#[derive(Debug, Clone, PartialEq, Eq)]
pub enum UnaryOperator {
    Neg,
}

/// An immutable expression tree. Each node exclusively owns its children.
#[derive(Debug, PartialEq, Eq)]
pub enum Node {
    Number(i32),
    BinaryExpr { op: BinaryOperator, lhs: Box<Node>, rhs: Box<Node> },
    UnaryExpr { op: UnaryOperator, child: Box<Node> },
}

/// The value of one decimal digit character.
pub open spec fn digit_val(c: char) -> int {
    c as int - '0' as int
}

/// The value of a decimal digit string, most significant digit first.
pub open spec fn digits_val(s: Seq<char>) -> int
    decreases s.len(),
{
    if s.len() == 0 {
        0
    } else {
        digits_val(s.drop_last()) * 10 + digit_val(s.last())
    }
}

/// Whether every character of `s` is a decimal digit.
pub open spec fn all_digits(s: Seq<char>) -> bool {
    forall|i: int| 0 <= i < s.len() ==> is_digit(s[i])
}

/// Whether `s` is a digit string that a `Number` node can hold: non-empty,
/// digits only, and no larger than `i32::MAX`.
pub open spec fn valid_literal(s: Seq<char>) -> bool {
    s.len() > 0 && all_digits(s) && digits_val(s) <= i32::MAX as int
}

/// The text standing at an error site: a token's text, or `end of input`.
pub open spec fn found_text(at: Option<Lexeme>) -> Seq<char> {
    match at {
        Some(l) => lexeme_text(l),
        None => "end of input"@,
    }
}

/// The message for a token that cannot begin a factor.
pub open spec fn msg_unexpected(l: Lexeme) -> Seq<char> {
    "unexpected token "@ + lexeme_text(l)
}

/// The message for input that ends where a factor is required.
pub open spec fn msg_expected_factor() -> Seq<char> {
    "expected factor, found end of input"@
}

/// The message for a missing closing parenthesis.
pub open spec fn msg_expected_rparen(at: Option<Lexeme>) -> Seq<char> {
    "expected ) but found "@ + found_text(at)
}

/// The message for a token left over after the parsed expression.
pub open spec fn msg_trailing(l: Lexeme) -> Seq<char> {
    "unexpected trailing token "@ + lexeme_text(l)
}

/// The message for a number token whose digit string no `i32` can hold.
pub open spec fn msg_bad_literal(d: Seq<char>) -> Seq<char> {
    "invalid number literal "@ + d
}

/// The factor beginning at `i`: a number, a negated factor, or a
/// parenthesized expression. On success, the node and the number of tokens
/// consumed; on failure, the error message.
pub open spec fn parse_factor_spec(toks: Seq<Lexeme>, i: int) -> Result<(Node, nat), Seq<char>>
    decreases toks.len() - i, 0int,
{
    if !(0 <= i && i < toks.len()) {
        Err(msg_expected_factor())
    } else {
        match toks[i] {
            Lexeme::Number(d) => if valid_literal(d) {
                Ok((Node::Number(digits_val(d) as i32), 1nat))
            } else {
                Err(msg_bad_literal(d))
            },
            Lexeme::Minus => match parse_factor_spec(toks, i + 1) {
                Ok((f, used)) => Ok(
                    (Node::UnaryExpr { op: UnaryOperator::Neg, child: Box::new(f) }, used + 1),
                ),
                Err(m) => Err(m),
            },
            Lexeme::LParen => match parse_expr_spec(toks, i + 1) {
                Ok((inner, used)) => if i + 1 + used < toks.len() && toks[i + 1 + used]
                    is RParen {
                    Ok((inner, used + 2))
                } else if i + 1 + used < toks.len() {
                    Err(msg_expected_rparen(Some(toks[i + 1 + used])))
                } else {
                    Err(msg_expected_rparen(None))
                },
                Err(m) => Err(m),
            },
            l => Err(msg_unexpected(l)),
        }
    }
}

/// The term beginning at `i`: a factor, possibly multiplied or divided by
/// the term after it (so `*` and `/` chains group to the right).
pub open spec fn parse_term_spec(toks: Seq<Lexeme>, i: int) -> Result<(Node, nat), Seq<char>>
    decreases toks.len() - i, 1int,
{
    match parse_factor_spec(toks, i) {
        Err(m) => Err(m),
        Ok((f, used)) => {
            let j = i + used;
            if j < toks.len() && (toks[j] is Mul || toks[j] is Div) {
                let op = if toks[j] is Mul {
                    BinaryOperator::Mul
                } else {
                    BinaryOperator::Div
                };
                match parse_term_spec(toks, j + 1) {
                    Err(m) => Err(m),
                    Ok((t, used_rhs)) => Ok(
                        (
                            Node::BinaryExpr { op, lhs: Box::new(f), rhs: Box::new(t) },
                            used + 1 + used_rhs,
                        ),
                    ),
                }
            } else {
                Ok((f, used))
            }
        },
    }
}

/// The expression beginning at `i`: a term, possibly added to or subtracted
/// from the expression after it (so `+` and `-` chains group to the right).
pub open spec fn parse_expr_spec(toks: Seq<Lexeme>, i: int) -> Result<(Node, nat), Seq<char>>
    decreases toks.len() - i, 2int,
{
    match parse_term_spec(toks, i) {
        Err(m) => Err(m),
        Ok((t, used)) => {
            let j = i + used;
            if j < toks.len() && (toks[j] is Plus || toks[j] is Minus) {
                let op = if toks[j] is Plus {
                    BinaryOperator::Plus
                } else {
                    BinaryOperator::Minus
                };
                match parse_expr_spec(toks, j + 1) {
                    Err(m) => Err(m),
                    Ok((e, used_rhs)) => Ok(
                        (
                            Node::BinaryExpr { op, lhs: Box::new(t), rhs: Box::new(e) },
                            used + 1 + used_rhs,
                        ),
                    ),
                }
            } else {
                Ok((t, used))
            }
        },
    }
}

/// The parse of the whole token sequence: one expression covering every
/// token. A token left unconsumed after the expression is an error; its
/// index is in range by [`lemma_expr_consumes`].
pub open spec fn parse_spec(toks: Seq<Lexeme>) -> Result<Node, Seq<char>> {
    match parse_expr_spec(toks, 0) {
        Err(m) => Err(m),
        Ok((n, used)) => if used == toks.len() {
            Ok(n)
        } else {
            Err(msg_trailing(toks[used as int]))
        },
    }
}

/// Law: a factor that parses consumes at least one token and no more than
/// remain from its starting point.
pub proof fn lemma_factor_consumes(toks: Seq<Lexeme>, i: int)
    ensures
        parse_factor_spec(toks, i) matches Ok(p) ==> 1 <= p.1 && i + p.1 <= toks.len(),
    decreases toks.len() - i, 0int,
{
    if 0 <= i && i < toks.len() {
        match toks[i] {
            Lexeme::Minus => lemma_factor_consumes(toks, i + 1),
            Lexeme::LParen => lemma_expr_consumes(toks, i + 1),
            _ => {},
        }
    }
}

/// Law: a term that parses consumes at least one token and no more than
/// remain from its starting point.
pub proof fn lemma_term_consumes(toks: Seq<Lexeme>, i: int)
    ensures
        parse_term_spec(toks, i) matches Ok(p) ==> 1 <= p.1 && i + p.1 <= toks.len(),
    decreases toks.len() - i, 1int,
{
    lemma_factor_consumes(toks, i);
    match parse_factor_spec(toks, i) {
        Ok((f, used)) => {
            let j = i + used;
            if j < toks.len() && (toks[j] is Mul || toks[j] is Div) {
                lemma_term_consumes(toks, j + 1);
            }
        },
        Err(m) => {},
    }
}

/// Law: an expression that parses consumes at least one token and no more
/// than remain from its starting point.
pub proof fn lemma_expr_consumes(toks: Seq<Lexeme>, i: int)
    ensures
        parse_expr_spec(toks, i) matches Ok(p) ==> 1 <= p.1 && i + p.1 <= toks.len(),
    decreases toks.len() - i, 2int,
{
    lemma_term_consumes(toks, i);
    match parse_term_spec(toks, i) {
        Ok((t, used)) => {
            let j = i + used;
            if j < toks.len() && (toks[j] is Plus || toks[j] is Minus) {
                lemma_expr_consumes(toks, j + 1);
            }
        },
        Err(m) => {},
    }
}

/// A syntactic failure: the message names the first structural violation and
/// the offending token, or end of input.
#[derive(Debug)]
pub struct ParserError {
    message: String,
}

impl View for ParserError {
    type V = Seq<char>;

    closed spec fn view(&self) -> Seq<char> {
        self.message@
    }
}

impl ParserError {
    /// The human-readable description of the violation.
    pub fn message(&self) -> (m: &str)
        ensures
            m@ == self@,
    {
        self.message.as_str()
    }
}

/// A recursive-descent parser over a fixed token sequence. Its view is the
/// sequence of lexemes it parses.
pub struct Parser {
    tokens: Vec<Token>,
}

impl View for Parser {
    type V = Seq<Lexeme>;

    closed spec fn view(&self) -> Seq<Lexeme> {
        lexemes_of(self.tokens@)
    }
}

impl Parser {
    /// A parser over `tokens`.
    pub fn new(tokens: Vec<Token>) -> (p: Parser)
        ensures
            p@ == lexemes_of(tokens@),
    {
        Parser { tokens }
    }

    /// Parses the whole token sequence into one expression tree, or fails at
    /// the first structural violation. The result, success or failure, is
    /// exactly [`parse_spec`] of the tokens.
    pub fn parse(&self) -> (r: Result<Node, ParserError>)
        ensures
            (match r {
                Ok(n) => parse_spec(self@) == Ok::<Node, Seq<char>>(n),
                Err(e) => parse_spec(self@) matches Err(m) && e@ == m,
            }),
    {
        match self.parse_expr(0) {
            Err(e) => Err(e),
            Ok((n, j)) => if j == self.tokens.len() {
                Ok(n)
            } else {
                let mut m = "unexpected trailing token ".to_owned();
                let t = self.tokens[j].text();
                m.append(t.as_str());
                Err(ParserError { message: m })
            },
        }
    }

    /// Parses `expr -> term (('+' | '-') expr)?` from index `i`.
    fn parse_expr(&self, i: usize) -> (r: Result<(Node, usize), ParserError>)
        requires
            i <= self@.len(),
        ensures
            (match r {
                Ok(p) => parse_expr_spec(self@, i as int) == Ok::<(Node, nat), Seq<char>>(
                    (p.0, (p.1 - i) as nat),
                ) && i < p.1 <= self@.len(),
                Err(e) => parse_expr_spec(self@, i as int) matches Err(m) && e@ == m,
            }),
        decreases self@.len() - i, 2int,
    {
        let (lhs, j) = match self.parse_term(i) {
            Ok(p) => p,
            Err(e) => {
                return Err(e);
            },
        };
        if j < self.tokens.len() {
            let op = match &self.tokens[j] {
                Token::Plus => Some(BinaryOperator::Plus),
                Token::Minus => Some(BinaryOperator::Minus),
                _ => None,
            };
            match op {
                Some(op) => match self.parse_expr(j + 1) {
                    Ok((rhs, k)) => Ok(
                        (Node::BinaryExpr { op, lhs: Box::new(lhs), rhs: Box::new(rhs) }, k),
                    ),
                    Err(e) => Err(e),
                },
                None => Ok((lhs, j)),
            }
        } else {
            Ok((lhs, j))
        }
    }

    /// Parses `term -> factor (('*' | '/') term)?` from index `i`.
    fn parse_term(&self, i: usize) -> (r: Result<(Node, usize), ParserError>)
        requires
            i <= self@.len(),
        ensures
            (match r {
                Ok(p) => parse_term_spec(self@, i as int) == Ok::<(Node, nat), Seq<char>>(
                    (p.0, (p.1 - i) as nat),
                ) && i < p.1 <= self@.len(),
                Err(e) => parse_term_spec(self@, i as int) matches Err(m) && e@ == m,
            }),
        decreases self@.len() - i, 1int,
    {
        let (lhs, j) = match self.parse_factor(i) {
            Ok(p) => p,
            Err(e) => {
                return Err(e);
            },
        };
        if j < self.tokens.len() {
            let op = match &self.tokens[j] {
                Token::Mul => Some(BinaryOperator::Mul),
                Token::Div => Some(BinaryOperator::Div),
                _ => None,
            };
            match op {
                Some(op) => match self.parse_term(j + 1) {
                    Ok((rhs, k)) => Ok(
                        (Node::BinaryExpr { op, lhs: Box::new(lhs), rhs: Box::new(rhs) }, k),
                    ),
                    Err(e) => Err(e),
                },
                None => Ok((lhs, j)),
            }
        } else {
            Ok((lhs, j))
        }
    }

    /// Parses `factor -> Number | '-' factor | '(' expr ')'` from index `i`.
    fn parse_factor(&self, i: usize) -> (r: Result<(Node, usize), ParserError>)
        requires
            i <= self@.len(),
        ensures
            (match r {
                Ok(p) => parse_factor_spec(self@, i as int) == Ok::<(Node, nat), Seq<char>>(
                    (p.0, (p.1 - i) as nat),
                ) && i < p.1 <= self@.len(),
                Err(e) => parse_factor_spec(self@, i as int) matches Err(m) && e@ == m,
            }),
        decreases self@.len() - i, 0int,
    {
        if i >= self.tokens.len() {
            return Err(ParserError { message: "expected factor, found end of input".to_owned() });
        }
        match &self.tokens[i] {
            Token::Number(d) => match digits_to_i32(d) {
                Some(v) => Ok((Node::Number(v), i + 1)),
                None => {
                    let mut m = "invalid number literal ".to_owned();
                    m.append(d.as_str());
                    Err(ParserError { message: m })
                },
            },
            Token::Minus => match self.parse_factor(i + 1) {
                Ok((f, j)) => Ok(
                    (Node::UnaryExpr { op: UnaryOperator::Neg, child: Box::new(f) }, j),
                ),
                Err(e) => Err(e),
            },
            Token::LParen => match self.parse_expr(i + 1) {
                Ok((inner, j)) => match self.skip(j) {
                    Ok(k) => Ok((inner, k)),
                    Err(e) => Err(e),
                },
                Err(e) => Err(e),
            },
            t => {
                let mut m = "unexpected token ".to_owned();
                let tt = t.text();
                m.append(tt.as_str());
                Err(ParserError { message: m })
            },
        }
    }

    /// Consumes the closing parenthesis expected at `i`.
    fn skip(&self, i: usize) -> (r: Result<usize, ParserError>)
        requires
            i <= self@.len(),
        ensures
            (match r {
                Ok(k) => k == i + 1 && i < self@.len() && self@[i as int] is RParen,
                Err(e) => if i < self@.len() {
                    !(self@[i as int] is RParen) && e@ == msg_expected_rparen(
                        Some(self@[i as int]),
                    )
                } else {
                    e@ == msg_expected_rparen(None)
                },
            }),
    {
        if i < self.tokens.len() {
            match &self.tokens[i] {
                Token::RParen => Ok(i + 1),
                t => {
                    let mut m = "expected ) but found ".to_owned();
                    let tt = t.text();
                    m.append(tt.as_str());
                    Err(ParserError { message: m })
                },
            }
        } else {
            let mut m = "expected ) but found ".to_owned();
            m.append("end of input");
            Err(ParserError { message: m })
        }
    }
}

proof fn lemma_digits_val_step(s: Seq<char>, i: int)
    requires
        0 <= i < s.len(),
    ensures
        digits_val(s.subrange(0, i + 1)) == digits_val(s.subrange(0, i)) * 10 + digit_val(s[i]),
{
    assert(s.subrange(0, i + 1).drop_last() =~= s.subrange(0, i));
    assert(s.subrange(0, i + 1).last() == s[i]);
}

pub(crate) proof fn lemma_digits_val_nonneg(s: Seq<char>)
    requires
        all_digits(s),
    ensures
        digits_val(s) >= 0,
    decreases s.len(),
{
    if s.len() > 0 {
        assert(all_digits(s.drop_last()));
        lemma_digits_val_nonneg(s.drop_last());
    }
}

proof fn lemma_digits_val_prefix_le(s: Seq<char>, i: int)
    requires
        0 <= i <= s.len(),
        all_digits(s),
    ensures
        digits_val(s.subrange(0, i)) <= digits_val(s),
    decreases s.len() - i,
{
    if i < s.len() {
        assert(all_digits(s.subrange(0, i)));
        lemma_digits_val_nonneg(s.subrange(0, i));
        lemma_digits_val_step(s, i);
        lemma_digits_val_prefix_le(s, i + 1);
    } else {
        assert(s.subrange(0, i) =~= s);
    }
}

/// Converts a digit string to the `i32` it denotes: `Some` exactly on a
/// non-empty all-digit string whose value fits, `None` otherwise.
fn digits_to_i32(d: &str) -> (r: Option<i32>)
    ensures
        (match r {
            Some(v) => valid_literal(d@) && v as int == digits_val(d@),
            None => !valid_literal(d@),
        }),
{
    let n = d.unicode_len();
    if n == 0 {
        return None;
    }
    let mut acc: i32 = 0;
    let mut i: usize = 0;
    while i < n
        invariant
            0 < n,
            i <= n,
            n as int == d@.len(),
            all_digits(d@.subrange(0, i as int)),
            0 <= acc,
            acc as int == digits_val(d@.subrange(0, i as int)),
        decreases n - i,
    {
        let c = d.get_char(i);
        if !crate::tokenizer::is_digit_char(c) {
            assert(!is_digit(d@[i as int]));
            return None;
        }
        let dv: u32 = c as u32 - '0' as u32;
        let next: u64 = acc as u64 * 10 + dv as u64;
        proof {
            lemma_digits_val_step(d@, i as int);
        }
        if next > i32::MAX as u64 {
            proof {
                if all_digits(d@) {
                    lemma_digits_val_prefix_le(d@, i as int + 1);
                }
            }
            return None;
        }
        acc = next as i32;
        i = i + 1;
    }
    proof {
        assert(d@.subrange(0, n as int) =~= d@);
    }
    Some(acc)
}

} // verus!
