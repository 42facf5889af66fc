//! Lexical analysis: text to tokens.
//!
//! [`Tokenizer::tokenize`] turns a line of text into the ordered sequence of
//! its tokens, discarding spaces, or fails with a [`TokenizerError`] carrying
//! the 1-based column of the first unrecognized character. The token sequence
//! is pinned down by the spec function [`lex_spec`].

use vstd::prelude::*;
use vstd::string::StrSliceExecFns;

verus! {

/// An atomic lexical unit. A `Number` keeps its digit text verbatim;
/// conversion to an integer value is deferred to parsing, so an out-of-range
/// literal is a parse error, not a lexical one.
#[derive(Debug, Clone, PartialEq, Eq)]
pub enum Token {
    Number(String),
    Plus,
    Minus,
    Mul,
    Div,
    LParen,
    RParen,
}

/// The mathematical model of a [`Token`]: the digit text of a number becomes
/// a sequence of characters.
pub enum Lexeme {
    Number(Seq<char>),
    Plus,
    Minus,
    Mul,
    Div,
    LParen,
    RParen,
}

impl View for Token {
    type V = Lexeme;

    open spec fn view(&self) -> Lexeme {
        match self {
            Token::Number(d) => Lexeme::Number(d@),
            Token::Plus => Lexeme::Plus,
            Token::Minus => Lexeme::Minus,
            Token::Mul => Lexeme::Mul,
            Token::Div => Lexeme::Div,
            Token::LParen => Lexeme::LParen,
            Token::RParen => Lexeme::RParen,
        }
    }
}

/// The models of a token sequence, element by element.
pub open spec fn lexemes_of(toks: Seq<Token>) -> Seq<Lexeme> {
    toks.map_values(|t: Token| t@)
}

/// The source text of a lexeme.
pub open spec fn lexeme_text(l: Lexeme) -> Seq<char> {
    match l {
        Lexeme::Number(d) => d,
        Lexeme::Plus => "+"@,
        Lexeme::Minus => "-"@,
        Lexeme::Mul => "*"@,
        Lexeme::Div => "/"@,
        Lexeme::LParen => "("@,
        Lexeme::RParen => ")"@,
    }
}

impl Token {
    /// The source text of this token.
    pub fn text(&self) -> (t: String)
        ensures
            t@ == lexeme_text(self@),
    {
        match self {
            Token::Number(d) => d.clone(),
            Token::Plus => "+".to_owned(),
            Token::Minus => "-".to_owned(),
            Token::Mul => "*".to_owned(),
            Token::Div => "/".to_owned(),
            Token::LParen => "(".to_owned(),
            Token::RParen => ")".to_owned(),
        }
    }
}

/// Whether `c` is a decimal digit.
pub open spec fn is_digit(c: char) -> bool {
    '0' as int <= c as int && c as int <= '9' as int
}

/// The end of the run of decimal digits that starts at `i`: the first index
/// at or after `i` that is out of range or holds a non-digit.
pub open spec fn digit_run_end(s: Seq<char>, i: int) -> int
    decreases s.len() - i,
{
    if 0 <= i && i < s.len() && is_digit(s[i]) {
        digit_run_end(s, i + 1)
    } else {
        i
    }
}

/// Prepends one lexeme to the tokens of the rest of the input, passing a
/// lexical error through unchanged.
pub open spec fn lex_cons(l: Lexeme, rest: Result<Seq<Lexeme>, int>) -> Result<Seq<Lexeme>, int> {
    match rest {
        Ok(ts) => Ok(seq![l] + ts),
        Err(e) => Err(e),
    }
}

/// The tokens of `s` from index `i` on: spaces are discarded, `( ) + - * /`
/// become single-character tokens, a maximal run of decimal digits becomes one
/// `Number` lexeme holding the digit text, and any other character is a
/// lexical error, reported as `Err` with its 0-based index.
pub open spec fn lex_from(s: Seq<char>, i: int) -> Result<Seq<Lexeme>, int>
    decreases s.len() - i,
{
    if !(0 <= i && i < s.len()) {
        Ok(Seq::empty())
    } else if s[i] == ' ' {
        lex_from(s, i + 1)
    } else if s[i] == '(' {
        lex_cons(Lexeme::LParen, lex_from(s, i + 1))
    } else if s[i] == ')' {
        lex_cons(Lexeme::RParen, lex_from(s, i + 1))
    } else if s[i] == '+' {
        lex_cons(Lexeme::Plus, lex_from(s, i + 1))
    } else if s[i] == '-' {
        lex_cons(Lexeme::Minus, lex_from(s, i + 1))
    } else if s[i] == '*' {
        lex_cons(Lexeme::Mul, lex_from(s, i + 1))
    } else if s[i] == '/' {
        lex_cons(Lexeme::Div, lex_from(s, i + 1))
    } else if is_digit(s[i]) {
        let j = digit_run_end(s, i);
        if i < j && j <= s.len() {
            lex_cons(Lexeme::Number(s.subrange(i, j)), lex_from(s, j))
        } else {
            Err(i)
        }
    } else {
        Err(i)
    }
}

/// The tokens of the whole of `s`, or the 0-based index of the first
/// unrecognized character.
pub open spec fn lex_spec(s: Seq<char>) -> Result<Seq<Lexeme>, int> {
    lex_from(s, 0)
}

/// Whether the lexer recognizes `c`: a space, a parenthesis, an operator,
/// or a decimal digit.
pub open spec fn recognized(c: char) -> bool {
    c == ' ' || c == '(' || c == ')' || c == '+' || c == '-' || c == '*' || c == '/' || is_digit(c)
}

proof fn lemma_digit_run_bounds(s: Seq<char>, i: int)
    requires
        0 <= i <= s.len(),
    ensures
        i <= digit_run_end(s, i) <= s.len(),
        forall|k: int| i <= k < digit_run_end(s, i) ==> is_digit(s[k]),
    decreases s.len() - i,
{
    if i < s.len() && is_digit(s[i]) {
        lemma_digit_run_bounds(s, i + 1);
    }
}

proof fn lemma_lex_from_error(s: Seq<char>, i: int)
    requires
        0 <= i <= s.len(),
    ensures
        (lex_from(s, i) matches Err(b)) <==> (exists|k: int|
            i <= k < s.len() && !recognized(s[k])),
        lex_from(s, i) matches Err(b) ==> i <= b < s.len() && !recognized(s[b]) && (forall|k: int|
            i <= k < b ==> recognized(s[k])),
    decreases s.len() - i,
{
    if i < s.len() {
        let c = s[i];
        if !recognized(c) {
            assert(i <= i < s.len() && !recognized(s[i]));
        } else if c == ' ' || c == '(' || c == ')' || c == '+' || c == '-' || c == '*' || c
            == '/' {
            lemma_lex_from_error(s, i + 1);
            if exists|k: int| i <= k < s.len() && !recognized(s[k]) {
                let k = choose|k: int| i <= k < s.len() && !recognized(s[k]);
                assert(i + 1 <= k < s.len() && !recognized(s[k]));
            }
        } else {
            let j = digit_run_end(s, i);
            lemma_digit_run_bounds(s, i);
            lemma_digit_run_bounds(s, i + 1);
            lemma_lex_from_error(s, j);
            if exists|k: int| i <= k < s.len() && !recognized(s[k]) {
                let k = choose|k: int| i <= k < s.len() && !recognized(s[k]);
                assert(j <= k < s.len() && !recognized(s[k]));
            }
        }
    }
}

/// Law: lexing fails exactly when the text holds a character the lexer does
/// not recognize, and then reports the first such character's 0-based index;
/// no partial token sequence accompanies the failure, since the result
/// carries either tokens or an index, never both.
pub proof fn lemma_lex_error_iff(s: Seq<char>)
    ensures
        (lex_spec(s) matches Err(b)) <==> (exists|k: int|
            0 <= k < s.len() && !recognized(s[k])),
        lex_spec(s) matches Err(b) ==> 0 <= b < s.len() && !recognized(s[b]) && (forall|k: int|
            0 <= k < b ==> recognized(s[k])),
{
    lemma_lex_from_error(s, 0);
}

/// The executable test for [`is_digit`].
pub(crate) fn is_digit_char(c: char) -> (b: bool)
    ensures
        b == is_digit(c),
{
    c as u32 >= '0' as u32 && c as u32 <= '9' as u32
}

pub(crate) proof fn lemma_digit_run_is(s: Seq<char>, i: int, j: int)
    requires
        0 <= i <= j <= s.len(),
        forall|k: int| i <= k < j ==> is_digit(s[k]),
        j == s.len() || !is_digit(s[j]),
    ensures
        digit_run_end(s, i) == j,
    decreases j - i,
{
    if i < j {
        lemma_digit_run_is(s, i + 1, j);
    }
}

/// The character for one decimal digit value.
pub open spec fn digit_char(d: int) -> char {
    if d == 0 {
        '0'
    } else if d == 1 {
        '1'
    } else if d == 2 {
        '2'
    } else if d == 3 {
        '3'
    } else if d == 4 {
        '4'
    } else if d == 5 {
        '5'
    } else if d == 6 {
        '6'
    } else if d == 7 {
        '7'
    } else if d == 8 {
        '8'
    } else {
        '9'
    }
}

/// The decimal rendering of `n`, most significant digit first, no sign and
/// no leading zero.
pub open spec fn dec_digits(n: nat) -> Seq<char>
    decreases n,
{
    if n < 10 {
        seq![digit_char(n as int)]
    } else {
        dec_digits(n / 10) + seq![digit_char((n % 10) as int)]
    }
}

/// Appends the decimal rendering of `n` to `out`.
fn push_u32(n: u32, out: &mut String)
    ensures
        final(out)@ == old(out)@ + dec_digits(n as nat),
    decreases n,
{
    if n >= 10 {
        push_u32(n / 10, out);
    }
    let d = n % 10;
    let ds: &str = if d == 0 {
        "0"
    } else if d == 1 {
        "1"
    } else if d == 2 {
        "2"
    } else if d == 3 {
        "3"
    } else if d == 4 {
        "4"
    } else if d == 5 {
        "5"
    } else if d == 6 {
        "6"
    } else if d == 7 {
        "7"
    } else if d == 8 {
        "8"
    } else {
        "9"
    };
    proof {
        reveal_strlit("0");
        reveal_strlit("1");
        reveal_strlit("2");
        reveal_strlit("3");
        reveal_strlit("4");
        reveal_strlit("5");
        reveal_strlit("6");
        reveal_strlit("7");
        reveal_strlit("8");
        reveal_strlit("9");
        assert(ds@ =~= seq![digit_char(d as int)]);
    }
    out.append(ds);
    proof {
        if n >= 10 {
            assert(old(out)@ + dec_digits((n / 10) as nat) + seq![digit_char(d as int)] =~= old(
                out,
            )@ + dec_digits(n as nat));
        } else {
            assert(old(out)@ + seq![digit_char(d as int)] =~= old(out)@ + dec_digits(n as nat));
        }
    }
}

/// A lexical failure: an unrecognized character, with its 1-based position.
#[derive(Debug)]
pub struct TokenizerError {
    pub message: String,
    pub line: u32,
    pub col: u32,
}

/// The one-line rendering of a lexical error: message, line and column.
pub open spec fn tokenizer_error_text(e: TokenizerError) -> Seq<char> {
    e.message@ + " at Line: "@ + dec_digits(e.line as nat) + ", Column "@ + dec_digits(
        e.col as nat,
    )
}

impl TokenizerError {
    /// The error as one line of text, position included.
    pub fn render(&self) -> (s: String)
        ensures
            s@ == tokenizer_error_text(*self),
    {
        let mut s = self.message.clone();
        s.append(" at Line: ");
        push_u32(self.line, &mut s);
        s.append(", Column ");
        push_u32(self.col, &mut s);
        s
    }
}

/// Walks a line of text and hands out its tokens. `line` and `col` are the
/// 1-based position of the first character of `text` not yet consumed; only
/// single-line input is in scope, so `line` never advances.
pub struct Tokenizer<'a> {
    pub text: &'a str,
    pub line: u32,
    pub col: u32,
}

impl<'a> Tokenizer<'a> {
    /// A tokenizer at the start of `text`: line 1, column 1.
    pub fn new(text: &'a str) -> (t: Tokenizer<'a>)
        ensures
            t.text == text,
            t.line == 1,
            t.col == 1,
    {
        Tokenizer { text, line: 1, col: 1 }
    }

    /// Produces the tokens of `text` in source order, or the error for the
    /// first unrecognized character. Exactly [`lex_spec`] decides which: on
    /// success the result models `lex_spec(text)`, and on failure the error's
    /// column is the starting column plus the index `lex_spec` reports. The
    /// column counter advances past everything consumed.
    pub fn tokenize(&mut self) -> (r: Result<Vec<Token>, TokenizerError>)
        requires
            old(self).col as int + old(self).text@.len() <= u32::MAX as int,
        ensures
            final(self).text == old(self).text,
            final(self).line == old(self).line,
            (match r {
                Ok(toks) => {
                    &&& lex_spec(old(self).text@) == Ok::<Seq<Lexeme>, int>(lexemes_of(toks@))
                    &&& final(self).col as int == old(self).col as int + old(self).text@.len()
                },
                Err(e) => {
                    &&& lex_spec(old(self).text@) matches Err(bad) && e.col as int == old(
                        self,
                    ).col as int + bad
                    &&& final(self).col == e.col
                    &&& e.line == old(self).line
                    &&& e.message@ == "Unknow symbol"@
                },
            }),
    {
        let text = self.text;
        let n = text.unicode_len();
        let ghost s = text@;
        let mut toks: Vec<Token> = Vec::new();
        let mut i: usize = 0;
        while i < n
            invariant
                self.text == old(self).text,
                self.line == old(self).line,
                self.col == old(self).col,
                old(self).col as int + s.len() <= u32::MAX as int,
                s == text@,
                s == old(self).text@,
                n as int == s.len(),
                i <= n,
                (match lex_from(s, i as int) {
                    Ok(rest) => lex_from(s, 0) == Ok::<Seq<Lexeme>, int>(lexemes_of(toks@) + rest),
                    Err(b) => lex_from(s, 0) == Err::<Seq<Lexeme>, int>(b),
                }),
            decreases n - i,
        {
            let c = text.get_char(i);
            let ghost prev = toks@;
            let ghost i0 = i as int;
            if c == ' ' {
                i = i + 1;
            } else if is_digit_char(c) {
                let mut j: usize = i + 1;
                while j < n
                    invariant
                        i0 < j <= n,
                        n as int == s.len(),
                        s == text@,
                        forall|k: int| i0 <= k < j as int ==> is_digit(s[k]),
                    ensures
                        i0 < j <= n,
                        forall|k: int| i0 <= k < j as int ==> is_digit(s[k]),
                        j == n || !is_digit(s[j as int]),
                    decreases n - j,
                {
                    let d = text.get_char(j);
                    if is_digit_char(d) {
                        j = j + 1;
                    } else {
                        break;
                    }
                }
                proof {
                    lemma_digit_run_is(s, i0, j as int);
                }
                let digits = text.substring_char(i, j);
                toks.push(Token::Number(digits.to_owned()));
                i = j;
                proof {
                    assert(lexemes_of(toks@) =~= lexemes_of(prev).push(
                        Lexeme::Number(s.subrange(i0, j as int)),
                    ));
                    match lex_from(s, i as int) {
                        Ok(rest) => {
                            assert(lexemes_of(prev) + (seq![
                                Lexeme::Number(s.subrange(i0, j as int)),
                            ] + rest) =~= lexemes_of(toks@) + rest);
                        },
                        Err(b) => {},
                    }
                }
            } else {
                let tok = if c == '(' {
                    Some(Token::LParen)
                } else if c == ')' {
                    Some(Token::RParen)
                } else if c == '+' {
                    Some(Token::Plus)
                } else if c == '-' {
                    Some(Token::Minus)
                } else if c == '*' {
                    Some(Token::Mul)
                } else if c == '/' {
                    Some(Token::Div)
                } else {
                    None
                };
                match tok {
                    Some(t) => {
                        let ghost l = t@;
                        toks.push(t);
                        i = i + 1;
                        proof {
                            assert(lex_from(s, i0) == lex_cons(l, lex_from(s, i as int)));
                            assert(lexemes_of(toks@) =~= lexemes_of(prev).push(l));
                            match lex_from(s, i as int) {
                                Ok(rest) => {
                                    assert(lexemes_of(prev) + (seq![l] + rest) =~= lexemes_of(
                                        toks@,
                                    ) + rest);
                                },
                                Err(b) => {},
                            }
                        }
                    },
                    None => {
                        proof {
                            assert(!is_digit(s[i0]));
                            assert(lex_from(s, i0) == Err::<Seq<Lexeme>, int>(i0));
                        }
                        self.col = self.col + (i as u32);
                        return Err(
                            TokenizerError {
                                message: "Unknow symbol".to_owned(),
                                line: self.line,
                                col: self.col,
                            },
                        );
                    },
                }
            }
        }
        proof {
            assert(lex_from(s, i as int) == Ok::<Seq<Lexeme>, int>(Seq::empty()));
            assert(lexemes_of(toks@) + Seq::<Lexeme>::empty() =~= lexemes_of(toks@));
        }
        self.col = self.col + (n as u32);
        Ok(toks)
    }
}

} // verus!
