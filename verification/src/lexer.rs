//! Turns a line of input text into a sequence of tokens.
//!
//! The whole behaviour of [`lex`] is pinned down by the spec function
//! [`spec_lex`]: ASCII whitespace is skipped, a run of digits with at
//! most one decimal point becomes a [`Token::Number`] carrying the
//! literal text, each operator or parenthesis character becomes its
//! token, and any other character stops lexing with
//! [`LexError::InvalidCharacter`].

use vstd::prelude::*;
use vstd::string::*;

verus! {

/// One lexical unit of an input line.
///
/// A numeric literal keeps the exact text of its digit run; turning it
/// into a machine floating-point value is the driver's business, so the
/// verified core never loses information about the literal.
#[derive(Debug, Clone, PartialEq)]
pub enum Token {
    Number(String),
    Plus,
    Minus,
    Multiply,
    Divide,
    Modulo,
    LeftParenthesis,
    RightParenthesis,
    Power,
    SquareRoot,
}

/// The mathematical model of a [`Token`]: the numeral is a sequence of
/// characters instead of a `String`.
pub enum TokenView {
    Number(Seq<char>),
    Plus,
    Minus,
    Multiply,
    Divide,
    Modulo,
    LeftParenthesis,
    RightParenthesis,
    Power,
    SquareRoot,
}

impl DeepView for Token {
    type V = TokenView;

    open spec fn deep_view(&self) -> TokenView {
        match self {
            Token::Number(s) => TokenView::Number(s@),
            Token::Plus => TokenView::Plus,
            Token::Minus => TokenView::Minus,
            Token::Multiply => TokenView::Multiply,
            Token::Divide => TokenView::Divide,
            Token::Modulo => TokenView::Modulo,
            Token::LeftParenthesis => TokenView::LeftParenthesis,
            Token::RightParenthesis => TokenView::RightParenthesis,
            Token::Power => TokenView::Power,
            Token::SquareRoot => TokenView::SquareRoot,
        }
    }
}

impl View for Token {
    type V = TokenView;

    open spec fn view(&self) -> TokenView {
        self.deep_view()
    }
}

/// Lexing fails only on a character that fits no token.
#[derive(Debug, Clone, Copy, PartialEq, Eq)]
pub enum LexError {
    InvalidCharacter(char),
}

/// ASCII whitespace, the characters the lexer skips.
pub open spec fn is_space_char(c: char) -> bool {
    c == ' ' || c == '\t' || c == '\n' || c == '\x0C' || c == '\r'
}

/// An ASCII decimal digit.
pub open spec fn is_digit_char(c: char) -> bool {
    48 <= c as u32 && c as u32 <= 57
}

/// The token, if any, that a single operator or parenthesis character
/// stands for.
pub open spec fn spec_symbol_token(c: char) -> Option<TokenView> {
    if c == '+' {
        Some(TokenView::Plus)
    } else if c == '-' {
        Some(TokenView::Minus)
    } else if c == '*' {
        Some(TokenView::Multiply)
    } else if c == '/' {
        Some(TokenView::Divide)
    } else if c == '%' {
        Some(TokenView::Modulo)
    } else if c == '(' {
        Some(TokenView::LeftParenthesis)
    } else if c == ')' {
        Some(TokenView::RightParenthesis)
    } else if c == '^' {
        Some(TokenView::Power)
    } else if c == '\u{221A}' {
        Some(TokenView::SquareRoot)
    } else {
        None
    }
}

/// Where the numeral that is being scanned at position `i` ends: digits
/// are consumed, one decimal point is consumed, and a second decimal
/// point or any other character ends the run.
pub open spec fn numeral_end(s: Seq<char>, i: int, has_dot: bool) -> int
    decreases s.len() - i,
{
    if 0 <= i < s.len() {
        if is_digit_char(s[i]) {
            numeral_end(s, i + 1, has_dot)
        } else if s[i] == '.' && !has_dot {
            numeral_end(s, i + 1, true)
        } else {
            i
        }
    } else {
        i
    }
}

/// The token sequence lexed from position `i` of `s` on, or the first
/// error.
pub open spec fn spec_lex_from(s: Seq<char>, i: int) -> Result<Seq<TokenView>, LexError>
    decreases s.len() - i,
{
    if !(0 <= i < s.len()) {
        Ok(Seq::empty())
    } else if is_space_char(s[i]) {
        spec_lex_from(s, i + 1)
    } else if is_digit_char(s[i]) {
        let e = numeral_end(s, i + 1, false);
        let j = if e < i + 1 {
            i + 1
        } else if e > s.len() {
            s.len() as int
        } else {
            e
        };
        match spec_lex_from(s, j) {
            Ok(rest) => Ok(seq![TokenView::Number(s.subrange(i, j))] + rest),
            Err(err) => Err(err),
        }
    } else {
        match spec_symbol_token(s[i]) {
            Some(t) => match spec_lex_from(s, i + 1) {
                Ok(rest) => Ok(seq![t] + rest),
                Err(err) => Err(err),
            },
            None => Err(LexError::InvalidCharacter(s[i])),
        }
    }
}

/// What lexing a whole line yields.
pub open spec fn spec_lex(s: Seq<char>) -> Result<Seq<TokenView>, LexError> {
    spec_lex_from(s, 0)
}

/// Prefixing an already-lexed token sequence onto the outcome of lexing
/// the rest of the line.
pub open spec fn prepend_tokens(
    ts: Seq<TokenView>,
    r: Result<Seq<TokenView>, LexError>,
) -> Result<Seq<TokenView>, LexError> {
    match r {
        Ok(rest) => Ok(ts + rest),
        Err(err) => Err(err),
    }
}

proof fn lemma_prepend_tokens_assoc(
    a: Seq<TokenView>,
    b: Seq<TokenView>,
    r: Result<Seq<TokenView>, LexError>,
)
    ensures
        prepend_tokens(a, prepend_tokens(b, r)) == prepend_tokens(a + b, r),
{
    match r {
        Ok(rest) => {
            assert(a + (b + rest) =~= (a + b) + rest);
        },
        Err(_) => {},
    }
}

/// A string that is exactly one well-formed numeral: a digit first,
/// then digits and at most one decimal point, running to the end.
pub open spec fn spec_is_numeral(s: Seq<char>) -> bool {
    s.len() > 0 && is_digit_char(s[0]) && numeral_end(s, 1, false) == s.len()
}

/// Lexing a line that is exactly one numeral yields exactly one number
/// token, carrying the text of the line unchanged; whatever value the
/// numeral denotes is therefore preserved by lexing.
pub proof fn lemma_lex_preserves_numeral(s: Seq<char>)
    requires
        spec_is_numeral(s),
    ensures
        spec_lex(s) == Ok::<Seq<TokenView>, LexError>(seq![TokenView::Number(s)]),
{
    reveal_with_fuel(spec_lex_from, 2);
    assert(s.subrange(0, s.len() as int) =~= s);
    assert(seq![TokenView::Number(s)] + Seq::<TokenView>::empty() =~= seq![
        TokenView::Number(s),
    ]);
}

/// Whitespace contributes no token: lexing resumes past a whitespace
/// character as if it were not there.
pub proof fn lemma_lex_skips_space(s: Seq<char>, i: int)
    requires
        0 <= i < s.len(),
        is_space_char(s[i]),
    ensures
        spec_lex_from(s, i) == spec_lex_from(s, i + 1),
{
}

fn is_space(c: char) -> (r: bool)
    ensures
        r == is_space_char(c),
{
    c == ' ' || c == '\t' || c == '\n' || c == '\x0C' || c == '\r'
}

fn is_digit(c: char) -> (r: bool)
    ensures
        r == is_digit_char(c),
{
    let u: u32 = c as u32;
    48 <= u && u <= 57
}

/// Turns a line of text into tokens, exactly as [`spec_lex`] says.
pub fn lex(text: &str) -> (r: Result<Vec<Token>, LexError>)
    ensures
        match r {
            Ok(tokens) => spec_lex(text@) == Ok::<Seq<TokenView>, LexError>(tokens.deep_view()),
            Err(err) => spec_lex(text@) == Err::<Seq<TokenView>, LexError>(err),
        },
{
    let n: usize = text.unicode_len();
    let mut tokens: Vec<Token> = Vec::new();
    let mut i: usize = 0;
    while i < n
        invariant
            n == text@.len(),
            i <= n,
            spec_lex(text@) == prepend_tokens(tokens.deep_view(), spec_lex_from(text@, i as int)),
        decreases n - i,
    {
        let ghost s = text@;
        let ghost deep0 = tokens.deep_view();
        let c = text.get_char(i);
        if is_space(c) {
            i = i + 1;
        } else if is_digit(c) {
            let start = i;
            i = i + 1;
            let mut has_dot = false;
            while i < n
                invariant
                    n == s.len(),
                    s == text@,
                    start + 1 <= i <= n,
                    numeral_end(s, start + 1, false) == numeral_end(s, i as int, has_dot),
                ensures
                    s == text@,
                    start + 1 <= i <= n,
                    numeral_end(s, start + 1, false) == i as int,
                decreases n - i,
            {
                let c2 = text.get_char(i);
                if is_digit(c2) {
                    i = i + 1;
                } else if c2 == '.' && !has_dot {
                    has_dot = true;
                    i = i + 1;
                } else {
                    break;
                }
            }
            let literal = text.substring_char(start, i);
            let token = Token::Number(literal.to_owned());
            proof {
                let ghost tv = TokenView::Number(s.subrange(start as int, i as int));
                assert(token.deep_view() == tv);
                assert(spec_lex_from(s, start as int) == prepend_tokens(
                    seq![tv],
                    spec_lex_from(s, i as int),
                ));
            }
            tokens.push(token);
            proof {
                let ghost tv = TokenView::Number(s.subrange(start as int, i as int));
                assert(tokens.deep_view() =~= deep0 + seq![tv]);
                lemma_prepend_tokens_assoc(deep0, seq![tv], spec_lex_from(s, i as int));
            }
        } else {
            let token = match c {
                '+' => Token::Plus,
                '-' => Token::Minus,
                '*' => Token::Multiply,
                '/' => Token::Divide,
                '%' => Token::Modulo,
                '(' => Token::LeftParenthesis,
                ')' => Token::RightParenthesis,
                '^' => Token::Power,
                '\u{221A}' => Token::SquareRoot,
                _ => {
                    return Err(LexError::InvalidCharacter(c));
                },
            };
            proof {
                assert(spec_lex_from(s, i as int) == prepend_tokens(
                    seq![token.deep_view()],
                    spec_lex_from(s, i as int + 1),
                ));
            }
            tokens.push(token);
            i = i + 1;
            proof {
                let ghost tv = tokens.deep_view()[deep0.len() as int];
                assert(tokens.deep_view() =~= deep0 + seq![tv]);
                lemma_prepend_tokens_assoc(deep0, seq![tv], spec_lex_from(s, i as int));
            }
        }
    }
    proof {
        assert(spec_lex_from(text@, i as int) == Ok::<Seq<TokenView>, LexError>(Seq::empty()));
        assert(tokens.deep_view() + Seq::<TokenView>::empty() =~= tokens.deep_view());
    }
    Ok(tokens)
}

} // verus!
