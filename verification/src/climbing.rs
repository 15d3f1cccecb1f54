//! A calculator for arithmetic expressions: the four operations, unary
//! minus and parentheses, parsed by precedence climbing.

use crate::chars::is_digit;
use crate::chars::is_digit_char;
use crate::lexer::digits_end;
use crate::lexer::lemma_digits_end_bounds;
use crate::lexer::lemma_skip_spaces_bounds;
use crate::lexer::literal_value;
use crate::lexer::skip_spaces;
use vstd::prelude::*;

verus! {

/// A token of the calculator.
#[derive(Debug, PartialEq, Eq, Clone, Copy)]
pub enum Token {
    Plus,
    Minus,
    Mul,
    Div,
    Num(i32),
    LeftParen,
    RightParen,
}

impl Token {
    /// How tightly the token binds as a binary operator: `+ -` weaker than
    /// `* /`. `None` for a token that is no binary operator.
    pub open spec fn spec_precedence(&self) -> Option<u8> {
        match self {
            Token::Plus | Token::Minus => Some(1),
            Token::Mul | Token::Div => Some(2),
            Token::LeftParen | Token::RightParen | Token::Num(_) => None,
        }
    }

    /// How tightly the token binds as a binary operator, if it is one.
    #[verifier::when_used_as_spec(spec_precedence)]
    pub fn precedence(&self) -> (p: Option<u8>)
        ensures
            p == self.spec_precedence(),
    {
        match self {
            Token::Plus | Token::Minus => Some(1),
            Token::Mul | Token::Div => Some(2),
            Token::LeftParen | Token::RightParen | Token::Num(_) => None,
        }
    }
}

/// What ends a scan of the calculator's input.
#[derive(Debug, PartialEq)]
pub enum LexicalError {
    /// Text that starts no token.
    InvalidToken(String),
    /// End of input: ends a scan, and is never handed out by [`Lexer::lex`].
    Eof,
}

/// Mathematical value of a [`LexicalError`].
pub enum LexErrorView {
    InvalidToken(Seq<char>),
    Eof,
}

impl View for LexicalError {
    type V = LexErrorView;

    open spec fn view(&self) -> LexErrorView {
        match self {
            LexicalError::InvalidToken(s) => LexErrorView::InvalidToken(s@),
            LexicalError::Eof => LexErrorView::Eof,
        }
    }
}

/// What one scan step finds at a position: the token, or `None` where the
/// text there starts no token, and the index just past it.
pub struct Scan {
    pub token: Option<Token>,
    pub end: int,
}

/// The token that starts at index `i`, which holds a character that is no
/// white space. A literal too large for 32 signed bits is no token.
pub open spec fn scan(src: Seq<char>, i: int) -> Scan
    recommends
        0 <= i < src.len(),
{
    let c = src[i];
    if c == '+' {
        Scan { token: Some(Token::Plus), end: i + 1 }
    } else if c == '-' {
        Scan { token: Some(Token::Minus), end: i + 1 }
    } else if c == '*' {
        Scan { token: Some(Token::Mul), end: i + 1 }
    } else if c == '/' {
        Scan { token: Some(Token::Div), end: i + 1 }
    } else if c == '(' {
        Scan { token: Some(Token::LeftParen), end: i + 1 }
    } else if c == ')' {
        Scan { token: Some(Token::RightParen), end: i + 1 }
    } else if is_digit(c) {
        let end = digits_end(src, i + 1);
        match literal_value(src, i, end) {
            Some(n) => Scan { token: Some(Token::Num(n)), end },
            None => Scan { token: None, end },
        }
    } else {
        Scan { token: None, end: i + 1 }
    }
}

/// The outcome of reading one token, and the index where the read stopped.
pub struct Step {
    pub result: Result<Token, LexErrorView>,
    pub end: int,
}

/// Reading one token from index `i`: white space is skipped, then a token
/// is scanned. At the end of input the result is `Eof`.
pub open spec fn next_token_at(src: Seq<char>, i: int) -> Step {
    let start = skip_spaces(src, i);
    if start >= src.len() {
        Step { result: Err(LexErrorView::Eof), end: start }
    } else {
        let found = scan(src, start);
        match found.token {
            Some(token) => Step { result: Ok(token), end: found.end },
            None => Step {
                result: Err(LexErrorView::InvalidToken(src.subrange(start, found.end))),
                end: found.end,
            },
        }
    }
}

/// The outcome of reading all tokens, and the index where the read stopped.
pub struct Run {
    pub result: Result<Seq<Token>, LexErrorView>,
    pub end: int,
}

/// Puts tokens in front of what the rest of a run gave.
pub open spec fn prepend(tokens: Seq<Token>, rest: Run) -> Run {
    match rest.result {
        Ok(more) => Run { result: Ok(tokens + more), end: rest.end },
        Err(e) => rest,
    }
}

/// Reading all tokens from index `i` to the end of input. The first text
/// that starts no token ends the run with its error.
/// (A token ends after the place where the read began, see
/// [`lemma_next_token_bounds`]; the test for it serves to show that the
/// definition comes to an end.)
pub open spec fn lex_from(src: Seq<char>, i: int) -> Run
    decreases src.len() - i,
{
    let step = next_token_at(src, i);
    match step.result {
        Ok(token) => {
            if 0 <= i < step.end <= src.len() {
                prepend(seq![token], lex_from(src, step.end))
            } else {
                Run { result: Ok(seq![token]), end: step.end }
            }
        },
        Err(LexErrorView::Eof) => Run { result: Ok(Seq::empty()), end: step.end },
        Err(e) => Run { result: Err(e), end: step.end },
    }
}

/// Reading a token never moves backwards, and moves forwards where it finds one.
pub proof fn lemma_next_token_bounds(src: Seq<char>, i: int)
    requires
        0 <= i <= src.len(),
    ensures
        i <= next_token_at(src, i).end <= src.len(),
        next_token_at(src, i).result != Err::<Token, LexErrorView>(LexErrorView::Eof) ==> i
            < next_token_at(src, i).end,
{
    lemma_skip_spaces_bounds(src, i);
    let start = skip_spaces(src, i);
    if start < src.len() {
        lemma_digits_end_bounds(src, start + 1);
    }
}

/// The value of a [`Lexer::lex`] result.
pub open spec fn lex_result_view(r: Result<Vec<Token>, LexicalError>) -> Result<
    Seq<Token>,
    LexErrorView,
> {
    match r {
        Ok(tokens) => Ok(tokens@),
        Err(e) => Err(e@),
    }
}

/// The value of a [`Lexer::next_token`] result.
pub open spec fn token_result_view(r: Result<Token, LexicalError>) -> Result<Token, LexErrorView> {
    match r {
        Ok(token) => Ok(token),
        Err(e) => Err(e@),
    }
}

/// A cursor over the characters of a source text.
pub struct Lexer {
    inner: crate::lexer::Lexer,
}

impl Lexer {
    /// The characters of the source text.
    pub closed spec fn source(&self) -> Seq<char> {
        self.inner.source()
    }

    /// Index of the next character to read.
    pub closed spec fn cursor(&self) -> int {
        self.inner.cursor()
    }

    /// The cursor lies within the text.
    pub closed spec fn wf(&self) -> bool {
        self.inner.wf()
    }

    /// A cursor at the start of `input`.
    pub fn new(input: &str) -> (lexer: Lexer)
        ensures
            lexer.wf(),
            lexer.source() == input@,
            lexer.cursor() == 0,
    {
        Lexer { inner: crate::lexer::Lexer::new(input) }
    }

    /// Reads all tokens from the cursor to the end of input.
    pub fn lex(&mut self) -> (r: Result<Vec<Token>, LexicalError>)
        requires
            old(self).wf(),
        ensures
            final(self).wf(),
            final(self).source() == old(self).source(),
            lex_result_view(r) == lex_from(old(self).source(), old(self).cursor()).result,
            final(self).cursor() == lex_from(old(self).source(), old(self).cursor()).end,
    {
        let mut tokens: Vec<Token> = Vec::new();
        let ghost src = self.source();
        let ghost first = self.cursor();
        proof {
            self.inner.lemma_wf();
        }
        loop
            invariant
                self.wf(),
                self.source() == src,
                src == old(self).source(),
                first == old(self).cursor(),
                0 <= first <= self.cursor() <= src.len(),
                lex_from(src, first) == prepend(tokens@, lex_from(src, self.cursor())),
            decreases src.len() - self.cursor(),
        {
            let ghost at = self.cursor();
            let ghost before = tokens@;
            proof {
                lemma_next_token_bounds(src, at);
            }
            match self.next_token() {
                Ok(t) => {
                    tokens.push(t);
                    proof {
                        let step = next_token_at(src, at);
                        let rest = lex_from(src, step.end);
                        assert(tokens@ == before + seq![t]);
                        assert(lex_from(src, at) == prepend(seq![t], rest));
                        match rest.result {
                            Ok(more) => {
                                assert(before + (seq![t] + more) == (before + seq![t]) + more);
                            },
                            Err(e) => {},
                        }
                    }
                },
                Err(LexicalError::Eof) => {
                    proof {
                        assert(before + Seq::<Token>::empty() == before);
                    }
                    return Ok(tokens);
                },
                Err(e) => {
                    return Err(e);
                },
            }
        }
    }

    /// Skips white space, then reads one token. At the end of input the
    /// result is [`LexicalError::Eof`].
    pub fn next_token(&mut self) -> (r: Result<Token, LexicalError>)
        requires
            old(self).wf(),
        ensures
            final(self).wf(),
            final(self).source() == old(self).source(),
            token_result_view(r) == next_token_at(old(self).source(), old(self).cursor()).result,
            final(self).cursor() == next_token_at(old(self).source(), old(self).cursor()).end,
    {
        let ghost src = self.source();
        self.skip_whitespace();
        proof {
            self.inner.lemma_wf();
        }
        let start = self.inner.position();
        let c = match self.bump() {
            Some(c) => c,
            None => {
                return Err(LexicalError::Eof);
            },
        };
        let found: Option<Token> = if c == '+' {
            Some(Token::Plus)
        } else if c == '-' {
            Some(Token::Minus)
        } else if c == '*' {
            Some(Token::Mul)
        } else if c == '/' {
            Some(Token::Div)
        } else if c == '(' {
            Some(Token::LeftParen)
        } else if c == ')' {
            Some(Token::RightParen)
        } else if is_digit_char(c) {
            match self.next_number() {
                Some(n) => Some(Token::Num(n)),
                None => None,
            }
        } else {
            None
        };
        match found {
            Some(token) => Ok(token),
            None => {
                proof {
                    self.inner.lemma_wf();
                    lemma_digits_end_bounds(src, start + 1);
                }
                let end = self.inner.position();
                Err(LexicalError::InvalidToken(self.inner.text(start, end)))
            },
        }
    }

    fn skip_whitespace(&mut self)
        requires
            old(self).wf(),
        ensures
            final(self).wf(),
            final(self).source() == old(self).source(),
            final(self).cursor() == skip_spaces(old(self).source(), old(self).cursor()),
    {
        self.inner.skip_whitespace()
    }

    fn peek(&self) -> (c: Option<char>)
        requires
            self.wf(),
        ensures
            c == (if self.cursor() < self.source().len() {
                Some(self.source()[self.cursor()])
            } else {
                None
            }),
    {
        self.inner.peek()
    }

    /// The character under the cursor; the cursor moves past it.
    pub fn bump(&mut self) -> (c: Option<char>)
        requires
            old(self).wf(),
        ensures
            final(self).wf(),
            final(self).source() == old(self).source(),
            old(self).cursor() < old(self).source().len() ==> c == Some(
                old(self).source()[old(self).cursor()],
            ) && final(self).cursor() == old(self).cursor() + 1,
            old(self).cursor() >= old(self).source().len() ==> c.is_none() && final(self).cursor()
                == old(self).cursor(),
    {
        self.inner.bump()
    }

    /// Reads the rest of a decimal literal whose first digit lies just
    /// before the cursor. The value is `None` where the literal does not fit
    /// 32 signed bits.
    pub fn next_number(&mut self) -> (n: Option<i32>)
        requires
            old(self).wf(),
            old(self).cursor() >= 1,
            is_digit(old(self).source()[old(self).cursor() - 1]),
        ensures
            final(self).wf(),
            final(self).source() == old(self).source(),
            final(self).cursor() == digits_end(old(self).source(), old(self).cursor()),
            n == literal_value(
                old(self).source(),
                old(self).cursor() - 1,
                digits_end(old(self).source(), old(self).cursor()),
            ),
    {
        self.inner.next_number()
    }
}


/// An arithmetic expression.
#[derive(Debug, PartialEq)]
pub enum Expression {
    Binary { lhs: Box<Expression>, op: Token, rhs: Box<Expression> },
    Unary { op: Token, expr: Box<Expression> },
    Num(i32),
}

/// Whether an integer fits 32 signed bits.
pub open spec fn fits(v: int) -> bool {
    i32::MIN <= v <= i32::MAX
}

/// The result of an operator on two numbers, where every part of it is
/// defined and fits 32 signed bits.
pub open spec fn combine(op: Token, a: int, b: int) -> Option<int> {
    let v = match op {
        Token::Plus => Some(a + b),
        Token::Minus => Some(a - b),
        Token::Mul => Some(a * b),
        Token::Div => if b == 0 {
            None
        } else {
            Some(crate::semantics::trunc_div(a, b))
        },
        _ => None,
    };
    match v {
        Some(v) => if fits(v) {
            Some(v)
        } else {
            None
        },
        None => None,
    }
}

/// The number that an expression stands for in ordinary arithmetic, with
/// division truncating towards zero. There is none where it divides by
/// zero, where an operator is no operator, or where a part of it does not
/// fit 32 signed bits.
pub open spec fn value_of(e: Expression) -> Option<int>
    decreases e,
{
    match e {
        Expression::Num(v) => Some(v as int),
        Expression::Unary { op, expr } => match value_of(*expr) {
            Some(v) => if fits(-v) {
                Some(-v)
            } else {
                None
            },
            None => None,
        },
        Expression::Binary { lhs, op, rhs } => match value_of(*lhs) {
            Some(a) => match value_of(*rhs) {
                Some(b) => combine(op, a, b),
                None => None,
            },
            None => None,
        },
    }
}

impl Expression {
    /// The number that the expression stands for, if it has one.
    pub fn eval(&self) -> (v: Option<i32>)
        ensures
            match v {
                Some(v) => value_of(*self) == Some(v as int),
                None => value_of(*self) is None,
            },
        decreases self,
    {
        match self {
            Expression::Num(v) => Some(*v),
            Expression::Unary { op, expr } => match expr.eval() {
                Some(v) => 0i32.checked_sub(v),
                None => None,
            },
            Expression::Binary { lhs, op, rhs } => {
                let a = match lhs.eval() {
                    Some(a) => a,
                    None => {
                        return None;
                    },
                };
                let b = match rhs.eval() {
                    Some(b) => b,
                    None => {
                        return None;
                    },
                };
                match op {
                    Token::Plus => a.checked_add(b),
                    Token::Minus => a.checked_sub(b),
                    Token::Mul => a.checked_mul(b),
                    Token::Div => a.checked_div(b),
                    _ => None,
                }
            },
        }
    }
}

/// What a grammar rule yields: the expression and the index of the token
/// after it, or nothing where the tokens do not fit the rule.
pub type Parsed = Option<(Expression, int)>;

/// `Exp(p) -> P { B Exp(q) }`
///
/// In this and the other rules a test that the next rule starts further on
/// serves to show that the definition comes to an end.
pub open spec fn parse_expression(ts: Seq<Token>, pos: int, min_prec: int) -> Parsed
    decreases ts.len() - pos, 2int,
{
    match parse_primary(ts, pos) {
        Some((lhs, next)) => {
            if 0 <= pos < next <= ts.len() {
                parse_operators(ts, next, min_prec, lhs)
            } else {
                None
            }
        },
        None => None,
    }
}

/// `P -> "-" Exp(3) | "(" Exp(0) ")" | v`
pub open spec fn parse_primary(ts: Seq<Token>, pos: int) -> Parsed
    decreases ts.len() - pos, 1int,
{
    if !(0 <= pos < ts.len()) {
        None
    } else {
        match ts[pos] {
            Token::Num(v) => Some((Expression::Num(v), pos + 1)),
            Token::Minus => match parse_expression(ts, pos + 1, 3) {
                Some((inner, next)) => Some(
                    (Expression::Unary { op: Token::Minus, expr: Box::new(inner) }, next),
                ),
                None => None,
            },
            Token::LeftParen => match parse_expression(ts, pos + 1, 0) {
                Some((inner, next)) => if 0 <= next < ts.len() && ts[next] == Token::RightParen {
                    Some((inner, next + 1))
                } else {
                    None
                },
                None => None,
            },
            _ => None,
        }
    }
}

/// The climbing loop: while the next token is a binary operator that binds
/// at `min_prec`, it is consumed, its right operand is parsed one level
/// tighter, and the two sides are folded into `lhs`.
pub open spec fn parse_operators(ts: Seq<Token>, pos: int, min_prec: int, lhs: Expression) -> Parsed
    decreases ts.len() - pos, 0int,
{
    if !(0 <= pos < ts.len()) {
        Some((lhs, pos))
    } else {
        match ts[pos].spec_precedence() {
            Some(p) => {
                if p < min_prec {
                    Some((lhs, pos))
                } else {
                    match parse_expression(ts, pos + 1, p + 1) {
                        Some((rhs, next)) => {
                            if 0 <= pos < next <= ts.len() {
                                parse_operators(
                                    ts,
                                    next,
                                    min_prec,
                                    Expression::Binary {
                                        lhs: Box::new(lhs),
                                        op: ts[pos],
                                        rhs: Box::new(rhs),
                                    },
                                )
                            } else {
                                None
                            }
                        },
                        None => None,
                    }
                }
            },
            None => Some((lhs, pos)),
        }
    }
}

/// The expression that all tokens from `pos` on spell, if they spell one.
pub open spec fn parse_all(ts: Seq<Token>, pos: int) -> Option<Expression> {
    match parse_expression(ts, pos, 0) {
        Some((e, end)) => if end == ts.len() {
            Some(e)
        } else {
            None
        },
        None => None,
    }
}

/// The value of a rule's outcome: the expression and the cursor after it.
pub open spec fn outcome(r: Option<Expression>, end: int) -> Parsed {
    match r {
        Some(e) => Some((e, end)),
        None => None,
    }
}

/// A cursor over a buffer of tokens, with one token of lookahead.
pub struct Parser {
    tokens: Vec<Token>,
    pos: usize,
}

impl Parser {
    /// The tokens to parse.
    pub closed spec fn tokens(&self) -> Seq<Token> {
        self.tokens@
    }

    /// Index of the next token to read.
    pub closed spec fn cursor(&self) -> int {
        self.pos as int
    }

    /// A cursor at the first of the tokens.
    pub fn new(src: Vec<Token>) -> (parser: Parser)
        ensures
            parser.tokens() == src@,
            parser.cursor() == 0,
    {
        Parser { tokens: src, pos: 0 }
    }

    /// Parses one expression that takes up all tokens from the cursor on.
    /// The result is `None` where the tokens spell no such expression.
    pub fn parse(&mut self) -> (r: Option<Expression>)
        ensures
            final(self).tokens() == old(self).tokens(),
            old(self).cursor() <= final(self).cursor(),
            r == parse_all(old(self).tokens(), old(self).cursor()),
    {
        match self.expression(0) {
            Some(e) => if self.pos == self.tokens.len() {
                Some(e)
            } else {
                None
            },
            None => None,
        }
    }

    /// An expression whose binary operators all bind at `min_prec` or tighter.
    pub fn expression(&mut self, min_prec: u8) -> (r: Option<Expression>)
        ensures
            final(self).tokens() == old(self).tokens(),
            old(self).cursor() <= final(self).cursor(),
            outcome(r, final(self).cursor()) == parse_expression(
                old(self).tokens(),
                old(self).cursor(),
                min_prec as int,
            ),
            r is Some ==> old(self).cursor() < final(self).cursor() <= old(self).tokens().len(),
        decreases old(self).tokens().len() - old(self).cursor(), 2int,
    {
        let ghost ts = self.tokens();
        let ghost first = self.cursor();
        let mut lhs = match self.primary() {
            Some(e) => e,
            None => {
                return None;
            },
        };
        loop
            invariant_except_break
                parse_expression(ts, first, min_prec as int) == parse_operators(
                    ts,
                    self.cursor(),
                    min_prec as int,
                    lhs,
                ),
            invariant
                self.tokens() == ts,
                ts == old(self).tokens(),
                first == old(self).cursor(),
                0 <= first < self.cursor() <= ts.len(),
            ensures
                parse_expression(ts, first, min_prec as int) == Some((lhs, self.cursor())),
            decreases ts.len() - self.cursor(),
        {
            if self.pos >= self.tokens.len() {
                break ;
            }
            let op = self.tokens[self.pos];
            let p = match op.precedence() {
                Some(p) => p,
                None => {
                    break ;
                },
            };
            if p < min_prec {
                break ;
            }
            self.pos = self.pos + 1;
            let rhs = match self.expression(p + 1) {
                Some(e) => e,
                None => {
                    return None;
                },
            };
            lhs = Expression::Binary { lhs: Box::new(lhs), op, rhs: Box::new(rhs) };
        }
        Some(lhs)
    }

    /// An operand: a literal, a negation or a parenthesised expression.
    pub fn primary(&mut self) -> (r: Option<Expression>)
        ensures
            final(self).tokens() == old(self).tokens(),
            old(self).cursor() <= final(self).cursor(),
            outcome(r, final(self).cursor()) == parse_primary(
                old(self).tokens(),
                old(self).cursor(),
            ),
            r is Some ==> old(self).cursor() < final(self).cursor() <= old(self).tokens().len(),
        decreases old(self).tokens().len() - old(self).cursor(), 1int,
    {
        if self.pos >= self.tokens.len() {
            return None;
        }
        let at = self.pos;
        self.pos = self.pos + 1;
        match self.tokens[at] {
            Token::Num(v) => Some(Expression::Num(v)),
            Token::Minus => match self.expression(3) {
                Some(inner) => Some(Expression::Unary { op: Token::Minus, expr: Box::new(inner) }),
                None => None,
            },
            Token::LeftParen => {
                let inner = match self.expression(0) {
                    Some(e) => e,
                    None => {
                        return None;
                    },
                };
                if self.pos < self.tokens.len() {
                    let close = self.tokens[self.pos];
                    self.pos = self.pos + 1;
                    match close {
                        Token::RightParen => Some(inner),
                        _ => None,
                    }
                } else {
                    None
                }
            },
            _ => None,
        }
    }
}

} // verus!
