//! The errors of all stages as one type, and how an error is shown with the
//! source text it belongs to.

use crate::evaluator::RuntimeError;
use crate::lexer::LexicalError;
use crate::parser::SyntaxError;
use crate::text::push_signed_decimal;
use crate::text::push_text;
use crate::text::signed_decimal;
use crate::token::KindView;
use crate::token::Span;
use crate::token::Spanned;
use crate::token::TokenKind;
use vstd::prelude::*;
use vstd::string::StringExecFns;

verus! {

/// Something that can say in one line what it is.
pub trait Describe {
    /// The line of text.
    spec fn message_spec(&self) -> Seq<char>;

    fn message(&self) -> (s: String)
        ensures
            s@ == self.message_spec(),
    ;
}

/// How a token kind is written in a message.
pub open spec fn kind_text(kind: KindView) -> Seq<char> {
    match kind {
        KindView::Plus => "Plus"@,
        KindView::Minus => "Minus"@,
        KindView::Mul => "Mul"@,
        KindView::Div => "Div"@,
        KindView::Pow => "Pow"@,
        KindView::Eq => "Eq"@,
        KindView::Neq => "Neq"@,
        KindView::Gt => "Gt"@,
        KindView::GtEq => "GtEq"@,
        KindView::Lt => "Lt"@,
        KindView::LtEq => "LtEq"@,
        KindView::Assign => "Assign"@,
        KindView::Num(n) => "Num("@ + signed_decimal(n as int) + ")"@,
        KindView::Ident(name) => "Ident(\""@ + name + "\")"@,
        KindView::LeftParen => "LeftParen"@,
        KindView::RightParen => "RightParen"@,
        KindView::LeftBlock => "LeftBlock"@,
        KindView::RightBlock => "RightBlock"@,
        KindView::Semicolon => "Semicolon"@,
        KindView::If => "If"@,
        KindView::While => "While"@,
        KindView::For => "For"@,
    }
}

/// Appends how a token kind is written in a message.
pub fn push_kind(s: &mut String, kind: &TokenKind)
    ensures
        final(s)@ == old(s)@ + kind_text(kind@),
{
    match kind {
        TokenKind::Plus => push_text(s, "Plus"),
        TokenKind::Minus => push_text(s, "Minus"),
        TokenKind::Mul => push_text(s, "Mul"),
        TokenKind::Div => push_text(s, "Div"),
        TokenKind::Pow => push_text(s, "Pow"),
        TokenKind::Eq => push_text(s, "Eq"),
        TokenKind::Neq => push_text(s, "Neq"),
        TokenKind::Gt => push_text(s, "Gt"),
        TokenKind::GtEq => push_text(s, "GtEq"),
        TokenKind::Lt => push_text(s, "Lt"),
        TokenKind::LtEq => push_text(s, "LtEq"),
        TokenKind::Assign => push_text(s, "Assign"),
        TokenKind::Num(n) => {
            push_text(s, "Num(");
            push_signed_decimal(s, *n);
            push_text(s, ")");
            assert(s@ == old(s)@ + ("Num("@ + signed_decimal(*n as int) + ")"@));
        },
        TokenKind::Ident(name) => {
            push_text(s, "Ident(\"");
            push_text(s, name.as_str());
            push_text(s, "\")");
            assert(s@ == old(s)@ + ("Ident(\""@ + name@ + "\")"@));
        },
        TokenKind::LeftParen => push_text(s, "LeftParen"),
        TokenKind::RightParen => push_text(s, "RightParen"),
        TokenKind::LeftBlock => push_text(s, "LeftBlock"),
        TokenKind::RightBlock => push_text(s, "RightBlock"),
        TokenKind::Semicolon => push_text(s, "Semicolon"),
        TokenKind::If => push_text(s, "If"),
        TokenKind::While => push_text(s, "While"),
        TokenKind::For => push_text(s, "For"),
    }
}

impl Describe for LexicalError {
    open spec fn message_spec(&self) -> Seq<char> {
        match self {
            LexicalError::InvalidToken(text, _) => "Invalid token: "@ + text@,
            LexicalError::Eof => "End of File"@,
        }
    }

    fn message(&self) -> (s: String) {
        match self {
            LexicalError::InvalidToken(text, _) => {
                let mut s = String::from_str("Invalid token: ");
                push_text(&mut s, text.as_str());
                s
            },
            LexicalError::Eof => String::from_str("End of File"),
        }
    }
}

impl Describe for SyntaxError {
    open spec fn message_spec(&self) -> Seq<char> {
        match self {
            SyntaxError::UnmatchedLeftParen(_) => "Unmatched left parenthesis"@,
            SyntaxError::UnexpectedToken(t) => "Unexpected token: "@ + kind_text(t.kind@),
            SyntaxError::InvalidAssignmentTarget(t) => "Invalid assignment target: "@ + kind_text(
                t.kind@,
            ),
            SyntaxError::UnexpectedEof => "Unexpected end of file"@,
        }
    }

    fn message(&self) -> (s: String) {
        match self {
            SyntaxError::UnmatchedLeftParen(_) => String::from_str("Unmatched left parenthesis"),
            SyntaxError::UnexpectedToken(t) => {
                let mut s = String::from_str("Unexpected token: ");
                push_kind(&mut s, &t.kind);
                s
            },
            SyntaxError::InvalidAssignmentTarget(t) => {
                let mut s = String::from_str("Invalid assignment target: ");
                push_kind(&mut s, &t.kind);
                s
            },
            SyntaxError::UnexpectedEof => String::from_str("Unexpected end of file"),
        }
    }
}

impl Describe for RuntimeError {
    open spec fn message_spec(&self) -> Seq<char> {
        match self {
            RuntimeError::DivisionByZero => "Division by zero"@,
            RuntimeError::UnboundVariable(name) => "Unbound variable: "@ + name@,
            RuntimeError::NegativeExponent => "Negative exponent"@,
            RuntimeError::StepLimitExceeded => "Step limit exceeded"@,
        }
    }

    fn message(&self) -> (s: String) {
        match self {
            RuntimeError::DivisionByZero => String::from_str("Division by zero"),
            RuntimeError::UnboundVariable(name) => {
                let mut s = String::from_str("Unbound variable: ");
                push_text(&mut s, name.as_str());
                s
            },
            RuntimeError::NegativeExponent => String::from_str("Negative exponent"),
            RuntimeError::StepLimitExceeded => String::from_str("Step limit exceeded"),
        }
    }
}

impl Spanned for RuntimeError {
    open spec fn span_spec(&self) -> Option<Span> {
        None
    }

    fn span(&self) -> (s: Option<Span>) {
        None
    }
}

/// An error of any stage.
#[derive(Debug, PartialEq)]
pub enum CompilerError {
    Lexical(LexicalError),
    Syntax(SyntaxError),
    Runtime(RuntimeError),
}

impl Spanned for CompilerError {
    open spec fn span_spec(&self) -> Option<Span> {
        match self {
            CompilerError::Lexical(e) => e.span_spec(),
            CompilerError::Syntax(e) => e.span_spec(),
            CompilerError::Runtime(e) => e.span_spec(),
        }
    }

    fn span(&self) -> (s: Option<Span>) {
        match self {
            CompilerError::Lexical(e) => e.span(),
            CompilerError::Syntax(e) => e.span(),
            CompilerError::Runtime(e) => e.span(),
        }
    }
}

impl Describe for CompilerError {
    open spec fn message_spec(&self) -> Seq<char> {
        match self {
            CompilerError::Lexical(e) => "Lexical error: "@ + e.message_spec(),
            CompilerError::Syntax(e) => "Syntax error: "@ + e.message_spec(),
            CompilerError::Runtime(e) => "Runtime error: "@ + e.message_spec(),
        }
    }

    fn message(&self) -> (s: String) {
        match self {
            CompilerError::Lexical(e) => {
                let mut s = String::from_str("Lexical error: ");
                let inner = e.message();
                push_text(&mut s, inner.as_str());
                s
            },
            CompilerError::Syntax(e) => {
                let mut s = String::from_str("Syntax error: ");
                let inner = e.message();
                push_text(&mut s, inner.as_str());
                s
            },
            CompilerError::Runtime(e) => {
                let mut s = String::from_str("Runtime error: ");
                let inner = e.message();
                push_text(&mut s, inner.as_str());
                s
            },
        }
    }
}

impl From<LexicalError> for CompilerError {
    fn from(e: LexicalError) -> (r: CompilerError) {
        CompilerError::Lexical(e)
    }
}

impl vstd::std_specs::convert::FromSpecImpl<LexicalError> for CompilerError {
    open spec fn obeys_from_spec() -> bool {
        true
    }

    open spec fn from_spec(e: LexicalError) -> CompilerError {
        CompilerError::Lexical(e)
    }
}

impl From<SyntaxError> for CompilerError {
    fn from(e: SyntaxError) -> (r: CompilerError) {
        CompilerError::Syntax(e)
    }
}

impl vstd::std_specs::convert::FromSpecImpl<SyntaxError> for CompilerError {
    open spec fn obeys_from_spec() -> bool {
        true
    }

    open spec fn from_spec(e: SyntaxError) -> CompilerError {
        CompilerError::Syntax(e)
    }
}

impl From<RuntimeError> for CompilerError {
    fn from(e: RuntimeError) -> (r: CompilerError) {
        CompilerError::Runtime(e)
    }
}

impl vstd::std_specs::convert::FromSpecImpl<RuntimeError> for CompilerError {
    open spec fn obeys_from_spec() -> bool {
        true
    }

    open spec fn from_spec(e: RuntimeError) -> CompilerError {
        CompilerError::Runtime(e)
    }
}

/// The character `c`, `n` times.
pub open spec fn repeat(c: char, n: nat) -> Seq<char> {
    Seq::new(n, |i: int| c)
}

/// The line that points at a span: a space for each byte before it, a caret
/// for each byte of it.
pub open spec fn pointer_line(span: Span) -> Seq<char> {
    repeat(' ', span.start as nat) + repeat(
        '^',
        if span.end >= span.start {
            (span.end - span.start) as nat
        } else {
            0
        },
    )
}

/// An error shown with its source: the message, the source text, and where
/// the error has a span, a line that points at it.
pub open spec fn error_text(message: Seq<char>, span: Option<Span>, source: Seq<char>) -> Seq<char> {
    match span {
        Some(span) => message + seq!['\n'] + source + seq!['\n'] + pointer_line(span),
        None => message + seq!['\n'] + source,
    }
}

fn push_repeated(s: &mut String, c: char, n: usize)
    ensures
        final(s)@ == old(s)@ + repeat(c, n as nat),
{
    let mut i: usize = 0;
    while i < n
        invariant
            i <= n,
            s@ == old(s)@ + repeat(c, i as nat),
        decreases n - i,
    {
        s.push(c);
        assert(repeat(c, (i + 1) as nat) == repeat(c, i as nat).push(c));
        i += 1;
    }
}

/// Shows an error together with the source text it came from.
pub fn format_error<E: Spanned + Describe>(e: &E, source: &str) -> (text: String)
    ensures
        text@ == error_text(e.message_spec(), e.span_spec(), source@),
{
    let mut text = e.message();
    text.push('\n');
    push_text(&mut text, source);
    match e.span() {
        Some(span) => {
            text.push('\n');
            let ghost head = text@;
            push_repeated(&mut text, ' ', span.start);
            let width = if span.end >= span.start {
                span.end - span.start
            } else {
                0
            };
            push_repeated(&mut text, '^', width);
            assert(text@ == head + pointer_line(span));
        },
        None => {},
    }
    text
}

} // verus!
