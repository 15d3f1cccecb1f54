//! The lexer: one forward scan from source text to spanned tokens.

use crate::chars::byte_offset;
use crate::chars::digit_of;
use crate::chars::digit_value;
use crate::chars::is_letter_char;
use crate::chars::is_word_char;
use crate::chars::is_digit_char;
use crate::chars::is_digit;
use crate::chars::is_letter;
use crate::chars::is_space;
use crate::chars::is_space_char;
use crate::chars::is_word;
use crate::chars::lemma_byte_offset_ends;
use crate::chars::lemma_byte_offset_monotonic;
use crate::chars::lemma_byte_offset_step;
use crate::chars::len_utf8;
use crate::text::chars_of;
use crate::text::string_of;
use crate::token::token_views;
use crate::token::KindView;
use crate::token::Span;
use crate::token::Spanned;
use crate::token::Token;
use crate::token::TokenKind;
use crate::token::TokenView;
use vstd::prelude::*;

verus! {

/// What ends a scan.
#[derive(Debug, PartialEq)]
pub enum LexicalError {
    /// Text that starts no token, with the place where it stands.
    InvalidToken(String, Span),
    /// End of input: ends a scan, and is never handed out by [`Lexer::lex`].
    Eof,
}

/// Mathematical value of a [`LexicalError`].
pub enum LexErrorView {
    InvalidToken(Seq<char>, Span),
    Eof,
}

impl View for LexicalError {
    type V = LexErrorView;

    open spec fn view(&self) -> LexErrorView {
        match self {
            LexicalError::InvalidToken(s, span) => LexErrorView::InvalidToken(s@, *span),
            LexicalError::Eof => LexErrorView::Eof,
        }
    }
}

impl Spanned for LexicalError {
    open spec fn span_spec(&self) -> Option<Span> {
        match self {
            LexicalError::InvalidToken(_, span) => Some(*span),
            LexicalError::Eof => None,
        }
    }

    fn span(&self) -> (s: Option<Span>) {
        match self {
            LexicalError::InvalidToken(_, span) => Some(*span),
            LexicalError::Eof => None,
        }
    }
}

/// A result of the lexer.
pub type LexResult<T> = Result<T, LexicalError>;

/// Index of the first character at or after `i` that is no white space.
pub open spec fn skip_spaces(src: Seq<char>, i: int) -> int
    decreases src.len() - i,
{
    if 0 <= i < src.len() && is_space(src[i]) {
        skip_spaces(src, i + 1)
    } else {
        i
    }
}

/// Index of the first character at or after `i` that is no decimal digit.
pub open spec fn digits_end(src: Seq<char>, i: int) -> int
    decreases src.len() - i,
{
    if 0 <= i < src.len() && is_digit(src[i]) {
        digits_end(src, i + 1)
    } else {
        i
    }
}

/// Index of the first character at or after `i` that cannot continue an identifier.
pub open spec fn word_end(src: Seq<char>, i: int) -> int
    decreases src.len() - i,
{
    if 0 <= i < src.len() && is_word(src[i]) {
        word_end(src, i + 1)
    } else {
        i
    }
}

/// The number that the decimal digits `src[from..to]` spell.
pub open spec fn decimal_value(src: Seq<char>, from: int, to: int) -> int
    decreases to - from,
{
    if to <= from {
        0
    } else {
        decimal_value(src, from, to - 1) * 10 + digit_value(src[to - 1])
    }
}

/// The value of the literal `src[from..to]`, where it fits 32 signed bits.
pub open spec fn literal_value(src: Seq<char>, from: int, to: int) -> Option<i32> {
    let v = decimal_value(src, from, to);
    if v <= i32::MAX {
        Some(v as i32)
    } else {
        None
    }
}

/// The byte span of the characters `src[from..to]`.
pub open spec fn span_of(src: Seq<char>, from: int, to: int) -> Span {
    Span { start: byte_offset(src, from) as usize, end: byte_offset(src, to) as usize }
}

/// The kind of token that a word is: a keyword, or else an identifier.
pub open spec fn word_kind(word: Seq<char>) -> KindView {
    if word == seq!['i', 'f'] {
        KindView::If
    } else if word == seq!['w', 'h', 'i', 'l', 'e'] {
        KindView::While
    } else if word == seq!['f', 'o', 'r'] {
        KindView::For
    } else {
        KindView::Ident(word)
    }
}

/// What one scan step finds at a position: the token's kind, or `None` where
/// the text there starts no token, and the index just past it.
pub struct Scan {
    pub kind: Option<KindView>,
    pub end: int,
}

/// Whether the character after index `i` is `=`.
pub open spec fn followed_by_eq(src: Seq<char>, i: int) -> bool {
    i + 1 < src.len() && src[i + 1] == '='
}

/// One of the two tokens that a character starts: `pair` where `=` follows, else `single`.
pub open spec fn one_or_two(src: Seq<char>, i: int, single: Option<KindView>, pair: KindView) -> Scan {
    if followed_by_eq(src, i) {
        Scan { kind: Some(pair), end: i + 2 }
    } else {
        Scan { kind: single, end: i + 1 }
    }
}

/// The token that starts at index `i`, which holds a character that is no white space.
///
/// A literal too large for 32 signed bits is no token: the scan yields `None`
/// over all of its digits.
pub open spec fn scan(src: Seq<char>, i: int) -> Scan
    recommends
        0 <= i < src.len(),
{
    let c = src[i];
    if c == '+' {
        Scan { kind: Some(KindView::Plus), end: i + 1 }
    } else if c == '-' {
        Scan { kind: Some(KindView::Minus), end: i + 1 }
    } else if c == '*' {
        Scan { kind: Some(KindView::Mul), end: i + 1 }
    } else if c == '/' {
        Scan { kind: Some(KindView::Div), end: i + 1 }
    } else if c == '^' {
        Scan { kind: Some(KindView::Pow), end: i + 1 }
    } else if c == '(' {
        Scan { kind: Some(KindView::LeftParen), end: i + 1 }
    } else if c == ')' {
        Scan { kind: Some(KindView::RightParen), end: i + 1 }
    } else if c == ';' {
        Scan { kind: Some(KindView::Semicolon), end: i + 1 }
    } else if c == '{' {
        Scan { kind: Some(KindView::LeftBlock), end: i + 1 }
    } else if c == '}' {
        Scan { kind: Some(KindView::RightBlock), end: i + 1 }
    } else if c == '=' {
        one_or_two(src, i, Some(KindView::Assign), KindView::Eq)
    } else if c == '!' {
        one_or_two(src, i, None, KindView::Neq)
    } else if c == '<' {
        one_or_two(src, i, Some(KindView::Lt), KindView::LtEq)
    } else if c == '>' {
        one_or_two(src, i, Some(KindView::Gt), KindView::GtEq)
    } else if is_digit(c) {
        let end = digits_end(src, i + 1);
        match literal_value(src, i, end) {
            Some(n) => Scan { kind: Some(KindView::Num(n)), end },
            None => Scan { kind: None, end },
        }
    } else if is_letter(c) {
        let end = word_end(src, i + 1);
        Scan { kind: Some(word_kind(src.subrange(i, end))), end }
    } else {
        Scan { kind: None, end: i + 1 }
    }
}

/// The outcome of reading one token, and the index where the read stopped.
pub struct Step {
    pub result: Result<TokenView, LexErrorView>,
    pub end: int,
}

/// Reading one token from index `i`: white space is skipped, then a token is
/// scanned. At the end of input the result is `Eof`.
pub open spec fn next_token_at(src: Seq<char>, i: int) -> Step {
    let start = skip_spaces(src, i);
    if start >= src.len() {
        Step { result: Err(LexErrorView::Eof), end: start }
    } else {
        let found = scan(src, start);
        let span = span_of(src, start, found.end);
        match found.kind {
            Some(kind) => Step { result: Ok(TokenView { span, kind }), end: found.end },
            None => Step {
                result: Err(LexErrorView::InvalidToken(src.subrange(start, found.end), span)),
                end: found.end,
            },
        }
    }
}

/// The outcome of reading all tokens, and the index where the read stopped.
pub struct Run {
    pub result: Result<Seq<TokenView>, LexErrorView>,
    pub end: int,
}

/// Puts a token in front of what the rest of a run gave.
pub open spec fn prepend(tokens: Seq<TokenView>, rest: Run) -> Run {
    match rest.result {
        Ok(more) => Run { result: Ok(tokens + more), end: rest.end },
        Err(e) => rest,
    }
}

/// Reading all tokens from index `i` to the end of input. The first text
/// that starts no token ends the run with its error.
/// (A token ends after the place where the read began, see
/// [`lemma_next_token_bounds`]; the test for it serves to show that the
/// definition comes to an end.)
pub open spec fn lex_from(src: Seq<char>, i: int) -> Run
    decreases src.len() - i,
{
    let step = next_token_at(src, i);
    match step.result {
        Ok(token) => {
            if 0 <= i < step.end <= src.len() {
                prepend(seq![token], lex_from(src, step.end))
            } else {
                Run { result: Ok(seq![token]), end: step.end }
            }
        },
        Err(LexErrorView::Eof) => Run { result: Ok(Seq::empty()), end: step.end },
        Err(e) => Run { result: Err(e), end: step.end },
    }
}

/// Skipping white space moves forwards and stays within the text.
pub proof fn lemma_skip_spaces_bounds(src: Seq<char>, i: int)
    requires
        0 <= i <= src.len(),
    ensures
        i <= skip_spaces(src, i) <= src.len(),
    decreases src.len() - i,
{
    if i < src.len() && is_space(src[i]) {
        lemma_skip_spaces_bounds(src, i + 1);
    }
}

/// A run of digits ends at or after its start and within the text.
pub proof fn lemma_digits_end_bounds(src: Seq<char>, i: int)
    requires
        0 <= i <= src.len(),
    ensures
        i <= digits_end(src, i) <= src.len(),
    decreases src.len() - i,
{
    if i < src.len() && is_digit(src[i]) {
        lemma_digits_end_bounds(src, i + 1);
    }
}

/// A word ends at or after its start and within the text.
pub proof fn lemma_word_end_bounds(src: Seq<char>, i: int)
    requires
        0 <= i <= src.len(),
    ensures
        i <= word_end(src, i) <= src.len(),
    decreases src.len() - i,
{
    if i < src.len() && is_word(src[i]) {
        lemma_word_end_bounds(src, i + 1);
    }
}

/// A scan step consumes at least one character and stays within the text.
pub proof fn lemma_scan_bounds(src: Seq<char>, i: int)
    requires
        0 <= i < src.len(),
    ensures
        i < scan(src, i).end <= src.len(),
{
    lemma_digits_end_bounds(src, i + 1);
    lemma_word_end_bounds(src, i + 1);
}

/// Reading a token never moves backwards, and moves forwards where it finds one.
pub proof fn lemma_next_token_bounds(src: Seq<char>, i: int)
    requires
        0 <= i <= src.len(),
    ensures
        i <= next_token_at(src, i).end <= src.len(),
        next_token_at(src, i).result != Err::<TokenView, LexErrorView>(LexErrorView::Eof) ==> i
            < next_token_at(src, i).end,
{
    lemma_skip_spaces_bounds(src, i);
    let start = skip_spaces(src, i);
    if start < src.len() {
        lemma_scan_bounds(src, start);
    }
}


/// The value of a [`Lexer::lex`] result.
pub open spec fn lex_result_view(r: Result<Vec<Token>, LexicalError>) -> Result<
    Seq<TokenView>,
    LexErrorView,
> {
    match r {
        Ok(tokens) => Ok(token_views(tokens@)),
        Err(e) => Err(e@),
    }
}

/// The value of a [`Lexer::next_token`] result.
pub open spec fn token_result_view(r: Result<Token, LexicalError>) -> Result<
    TokenView,
    LexErrorView,
> {
    match r {
        Ok(token) => Ok(token@),
        Err(e) => Err(e@),
    }
}

/// A cursor over the characters of a source text.
pub struct Lexer {
    chars: Vec<char>,
    index: usize,
    pos: usize,
}

impl Lexer {
    /// The characters of the source text.
    pub closed spec fn source(&self) -> Seq<char> {
        self.chars@
    }

    /// Index of the next character to read.
    pub closed spec fn cursor(&self) -> int {
        self.index as int
    }

    /// Byte offset of the next character to read.
    pub closed spec fn offset(&self) -> int {
        self.pos as int
    }

    /// The cursor lies within the text and every byte offset fits the machine.
    pub closed spec fn wf(&self) -> bool {
        &&& self.index <= self.chars.len()
        &&& self.pos == byte_offset(self.chars@, self.index as int)
        &&& byte_offset(self.chars@, self.chars.len() as int) <= usize::MAX
    }

    /// What a well-formed lexer knows of its cursor.
    pub proof fn lemma_wf(&self)
        requires
            self.wf(),
        ensures
            0 <= self.cursor() <= self.source().len(),
            self.offset() == byte_offset(self.source(), self.cursor()),
            byte_offset(self.source(), self.source().len() as int) <= usize::MAX,
    {
    }

    /// The index of the next character to read.
    pub fn position(&self) -> (index: usize)
        ensures
            index == self.cursor(),
    {
        self.index
    }

    /// The source text from character `from` up to character `to`.
    pub fn text(&self, from: usize, to: usize) -> (s: String)
        requires
            from <= to <= self.source().len(),
        ensures
            s@ == self.source().subrange(from as int, to as int),
    {
        string_of(&self.chars, from, to)
    }

    /// A cursor at the start of `input`.
    pub fn new(input: &str) -> (lexer: Lexer)
        ensures
            lexer.wf(),
            lexer.source() == input@,
            lexer.cursor() == 0,
    {
        let chars = chars_of(input);
        // The text's bytes are counted by a `usize`, so every byte offset fits one.
        let bytes = input.as_bytes();
        let total = bytes.len();
        proof {
            lemma_byte_offset_ends(chars@);
            assert(byte_offset(chars@, chars@.len() as int) == total);
        }
        Lexer { chars, index: 0, pos: 0 }
    }

    /// Reads all tokens from the cursor to the end of input.
    pub fn lex(&mut self) -> (r: LexResult<Vec<Token>>)
        requires
            old(self).wf(),
        ensures
            final(self).wf(),
            final(self).source() == old(self).source(),
            lex_result_view(r) == lex_from(old(self).source(), old(self).cursor()).result,
            final(self).cursor() == lex_from(old(self).source(), old(self).cursor()).end,
    {
        let mut tokens: Vec<Token> = Vec::new();
        let ghost src = self.chars@;
        let ghost first = self.index as int;
        loop
            invariant
                self.wf(),
                self.chars@ == src,
                src == old(self).source(),
                first == old(self).cursor(),
                0 <= first <= self.index <= src.len(),
                lex_from(src, first) == prepend(
                    token_views(tokens@),
                    lex_from(src, self.index as int),
                ),
            decreases src.len() - self.index,
        {
            let ghost at = self.index as int;
            let ghost before = token_views(tokens@);
            proof {
                lemma_next_token_bounds(src, at);
            }
            match self.next_token() {
                Ok(t) => {
                    tokens.push(t);
                    proof {
                        let step = next_token_at(src, at);
                        let rest = lex_from(src, step.end);
                        assert(token_views(tokens@) == before + seq![t@]);
                        assert(lex_from(src, at) == prepend(seq![t@], rest));
                        match rest.result {
                            Ok(more) => {
                                assert(before + (seq![t@] + more) == (before + seq![t@]) + more);
                            },
                            Err(e) => {},
                        }
                    }
                },
                Err(LexicalError::Eof) => {
                    proof {
                        assert(before + Seq::<TokenView>::empty() == before);
                    }
                    return Ok(tokens);
                },
                Err(e) => {
                    return Err(e);
                },
            }
        }
    }

    /// Skips white space, then reads one token. At the end of input the
    /// result is [`LexicalError::Eof`].
    pub fn next_token(&mut self) -> (r: Result<Token, LexicalError>)
        requires
            old(self).wf(),
        ensures
            final(self).wf(),
            final(self).source() == old(self).source(),
            token_result_view(r) == next_token_at(old(self).source(), old(self).cursor()).result,
            final(self).cursor() == next_token_at(old(self).source(), old(self).cursor()).end,
    {
        let ghost src = self.chars@;
        self.skip_whitespace();
        let start_index = self.index;
        let start = self.pos;
        proof {
            if start_index < src.len() {
                lemma_scan_bounds(src, start_index as int);
            }
        }
        let c = match self.bump() {
            Some(c) => c,
            None => {
                return Err(LexicalError::Eof);
            },
        };
        let found: Option<TokenKind> = if c == '+' {
            Some(TokenKind::Plus)
        } else if c == '-' {
            Some(TokenKind::Minus)
        } else if c == '*' {
            Some(TokenKind::Mul)
        } else if c == '/' {
            Some(TokenKind::Div)
        } else if c == '^' {
            Some(TokenKind::Pow)
        } else if c == '(' {
            Some(TokenKind::LeftParen)
        } else if c == ')' {
            Some(TokenKind::RightParen)
        } else if c == ';' {
            Some(TokenKind::Semicolon)
        } else if c == '{' {
            Some(TokenKind::LeftBlock)
        } else if c == '}' {
            Some(TokenKind::RightBlock)
        } else if c == '=' {
            if self.eat('=') {
                Some(TokenKind::Eq)
            } else {
                Some(TokenKind::Assign)
            }
        } else if c == '!' {
            if self.eat('=') {
                Some(TokenKind::Neq)
            } else {
                None
            }
        } else if c == '<' {
            if self.eat('=') {
                Some(TokenKind::LtEq)
            } else {
                Some(TokenKind::Lt)
            }
        } else if c == '>' {
            if self.eat('=') {
                Some(TokenKind::GtEq)
            } else {
                Some(TokenKind::Gt)
            }
        } else if is_digit_char(c) {
            match self.next_number() {
                Some(n) => Some(TokenKind::Num(n)),
                None => None,
            }
        } else if is_letter_char(c) {
            let word = self.next_ident();
            Some(self.keyword_or_ident(start_index, word))
        } else {
            None
        };
        let span = Span { start, end: self.pos };
        match found {
            Some(kind) => Ok(Token { span, kind }),
            None => Err(
                LexicalError::InvalidToken(self.text(start_index, self.index), span),
            ),
        }
    }

    /// The keyword that the word `chars[start..index]` spells, or else the identifier.
    fn keyword_or_ident(&self, start: usize, word: String) -> (kind: TokenKind)
        requires
            self.wf(),
            start <= self.cursor(),
            word@ == self.source().subrange(start as int, self.cursor()),
        ensures
            kind@ == word_kind(word@),
    {
        let n = self.index - start;
        let v = &self.chars;
        if n == 2 && v[start] == 'i' && v[start + 1] == 'f' {
            assert(word@ == seq!['i', 'f']);
            TokenKind::If
        } else if n == 5 && v[start] == 'w' && v[start + 1] == 'h' && v[start + 2] == 'i' && v[start
            + 3] == 'l' && v[start + 4] == 'e' {
            assert(word@ == seq!['w', 'h', 'i', 'l', 'e']);
            TokenKind::While
        } else if n == 3 && v[start] == 'f' && v[start + 1] == 'o' && v[start + 2] == 'r' {
            assert(word@ == seq!['f', 'o', 'r']);
            TokenKind::For
        } else {
            proof {
                let w = word@;
                if w == seq!['i', 'f'] {
                    assert(w.len() == 2 && w[0] == 'i' && w[1] == 'f');
                }
                if w == seq!['w', 'h', 'i', 'l', 'e'] {
                    assert(w.len() == 5 && w[0] == 'w' && w[1] == 'h' && w[2] == 'i' && w[3] == 'l'
                        && w[4] == 'e');
                }
                if w == seq!['f', 'o', 'r'] {
                    assert(w.len() == 3 && w[0] == 'f' && w[1] == 'o' && w[2] == 'r');
                }
            }
            TokenKind::Ident(word)
        }
    }

    /// Moves the cursor past white space.
    pub fn skip_whitespace(&mut self)
        requires
            old(self).wf(),
        ensures
            final(self).wf(),
            final(self).source() == old(self).source(),
            final(self).cursor() == skip_spaces(old(self).source(), old(self).cursor()),
    {
        let ghost src = self.chars@;
        let ghost first = self.index as int;
        loop
            invariant
                self.wf(),
                self.chars@ == src,
                skip_spaces(src, first) == skip_spaces(src, self.index as int),
            ensures
                self.wf(),
                self.chars@ == src,
                self.index == skip_spaces(src, first),
            decreases src.len() - self.index,
        {
            match self.peek() {
                Some(c) => {
                    if !is_space_char(c) {
                        break ;
                    }
                    self.bump();
                },
                None => {
                    break ;
                },
            }
        }
    }

    /// The character under the cursor, which stays where it is.
    pub fn peek(&self) -> (c: Option<char>)
        requires
            self.wf(),
        ensures
            c == (if self.cursor() < self.source().len() {
                Some(self.source()[self.cursor()])
            } else {
                None
            }),
    {
        if self.index < self.chars.len() {
            Some(self.chars[self.index])
        } else {
            None
        }
    }

    /// The character under the cursor; the cursor moves past it, by as many
    /// bytes as its encoding takes.
    pub fn bump(&mut self) -> (c: Option<char>)
        requires
            old(self).wf(),
        ensures
            final(self).wf(),
            final(self).source() == old(self).source(),
            old(self).cursor() < old(self).source().len() ==> c == Some(
                old(self).source()[old(self).cursor()],
            ) && final(self).cursor() == old(self).cursor() + 1,
            old(self).cursor() >= old(self).source().len() ==> c.is_none() && final(self).cursor()
                == old(self).cursor(),
    {
        if self.index < self.chars.len() {
            let c = self.chars[self.index];
            proof {
                lemma_byte_offset_step(self.chars@, self.index as int);
                lemma_byte_offset_monotonic(
                    self.chars@,
                    self.index as int + 1,
                    self.chars.len() as int,
                );
            }
            self.pos = self.pos + len_utf8(c);
            self.index = self.index + 1;
            Some(c)
        } else {
            None
        }
    }

    /// Moves past the character under the cursor where it is `expected`.
    fn eat(&mut self, expected: char) -> (found: bool)
        requires
            old(self).wf(),
        ensures
            final(self).wf(),
            final(self).source() == old(self).source(),
            found == (old(self).cursor() < old(self).source().len() && old(self).source()[old(
                self,
            ).cursor()] == expected),
            final(self).cursor() == old(self).cursor() + (if found {
                1int
            } else {
                0int
            }),
    {
        match self.peek() {
            Some(c) => {
                if c == expected {
                    self.bump();
                    true
                } else {
                    false
                }
            },
            None => false,
        }
    }

    /// Reads the rest of a decimal literal whose first digit lies just
    /// before the cursor. The value is `None` where the literal does not fit
    /// 32 signed bits.
    pub fn next_number(&mut self) -> (n: Option<i32>)
        requires
            old(self).wf(),
            old(self).cursor() >= 1,
            is_digit(old(self).source()[old(self).cursor() - 1]),
        ensures
            final(self).wf(),
            final(self).source() == old(self).source(),
            final(self).cursor() == digits_end(old(self).source(), old(self).cursor()),
            n == literal_value(
                old(self).source(),
                old(self).cursor() - 1,
                digits_end(old(self).source(), old(self).cursor()),
            ),
    {
        let ghost src = self.chars@;
        let ghost first = self.index as int;
        let mut value: i32 = digit_of(self.chars[self.index - 1]);
        let mut fits = true;
        assert(decimal_value(src, first - 1, first) == digit_value(src[first - 1])) by {
            assert(decimal_value(src, first - 1, first - 1) == 0);
        }
        loop
            invariant
                self.wf(),
                self.chars@ == src,
                1 <= first <= self.index <= src.len(),
                digits_end(src, first) == digits_end(src, self.index as int),
                fits ==> value == decimal_value(src, first - 1, self.index as int),
                !fits ==> decimal_value(src, first - 1, self.index as int) > i32::MAX,
                0 <= value,
            ensures
                self.wf(),
                self.chars@ == src,
                self.index == digits_end(src, first),
                fits ==> value == decimal_value(src, first - 1, self.index as int),
                !fits ==> decimal_value(src, first - 1, self.index as int) > i32::MAX,
            decreases src.len() - self.index,
        {
            match self.peek() {
                Some(c) => {
                    if !is_digit_char(c) {
                        break ;
                    }
                    let d = digit_of(c);
                    if fits && value <= (i32::MAX - d) / 10 {
                        value = value * 10 + d;
                    } else {
                        fits = false;
                    }
                    self.bump();
                },
                None => {
                    break ;
                },
            }
        }
        if fits {
            Some(value)
        } else {
            None
        }
    }

    /// Reads the rest of a word whose first character lies just before the
    /// cursor, and hands out the whole word.
    pub fn next_ident(&mut self) -> (word: String)
        requires
            old(self).wf(),
            old(self).cursor() >= 1,
        ensures
            final(self).wf(),
            final(self).source() == old(self).source(),
            final(self).cursor() == word_end(old(self).source(), old(self).cursor()),
            word@ == old(self).source().subrange(
                old(self).cursor() - 1,
                word_end(old(self).source(), old(self).cursor()),
            ),
    {
        let ghost src = self.chars@;
        let ghost first = self.index as int;
        let start = self.index - 1;
        loop
            invariant
                self.wf(),
                self.chars@ == src,
                1 <= first <= self.index <= src.len(),
                word_end(src, first) == word_end(src, self.index as int),
            ensures
                self.wf(),
                self.chars@ == src,
                first <= self.index <= src.len(),
                self.index == word_end(src, first),
            decreases src.len() - self.index,
        {
            match self.peek() {
                Some(c) => {
                    if !is_word_char(c) {
                        break ;
                    }
                    self.bump();
                },
                None => {
                    break ;
                },
            }
        }
        string_of(&self.chars, start, self.index)
    }
}

} // verus!
