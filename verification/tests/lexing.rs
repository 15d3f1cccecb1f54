use parser::chars::digit_of;
use parser::chars::is_digit_char;
use parser::chars::is_letter_char;
use parser::chars::is_space_char;
use parser::chars::is_word_char;
use parser::chars::len_utf8;
use parser::chars::letter_from;
use parser::chars::space_from;
use parser::chars::word_from;
use parser::lexer::Lexer;
use parser::lexer::LexicalError;
use parser::token::Span;
use parser::token::Spanned;
use parser::token::Token;
use parser::token::TokenKind;
use parser::token::TokenKind::{
    Assign, Div, For, Gt, GtEq, Ident, If, LeftBlock, LeftParen, Lt, LtEq, Minus, Mul, Neq, Num,
    Plus, Pow, RightBlock, RightParen, Semicolon, While,
};

fn t(kind: TokenKind, start: usize, end: usize) -> Token {
    Token { kind, span: Span { start, end } }
}

fn id(name: &str) -> TokenKind {
    Ident(name.to_string())
}

fn lex(source: &str) -> Result<Vec<Token>, LexicalError> {
    Lexer::new(source).lex()
}

#[test]
fn lexer() {
    assert_eq!(lex("+"), Ok(vec![t(Plus, 0, 1)]));
    assert_eq!(lex("123"), Ok(vec![t(Num(123), 0, 3)]));
    assert_eq!(lex("+ 123"), Ok(vec![t(Plus, 0, 1), t(Num(123), 2, 5)]));
    assert_eq!(lex("(1)"), Ok(vec![t(LeftParen, 0, 1), t(Num(1), 1, 2), t(RightParen, 2, 3)]));
    assert_eq!(lex("^"), Ok(vec![t(Pow, 0, 1)]));
    assert_eq!(
        lex("== != < <= > >="),
        Ok(vec![
            t(TokenKind::Eq, 0, 2),
            t(Neq, 3, 5),
            t(Lt, 6, 7),
            t(LtEq, 8, 10),
            t(Gt, 11, 12),
            t(GtEq, 13, 15),
        ])
    );
    assert_eq!(
        lex("x=1; x"),
        Ok(vec![
            t(id("x"), 0, 1),
            t(Assign, 1, 2),
            t(Num(1), 2, 3),
            t(Semicolon, 3, 4),
            t(id("x"), 5, 6),
        ])
    );
    assert_eq!(lex("if"), Ok(vec![t(If, 0, 2)]));
    assert_eq!(
        lex("if (1>=0) {x=2;}"),
        Ok(vec![
            t(If, 0, 2),
            t(LeftParen, 3, 4),
            t(Num(1), 4, 5),
            t(GtEq, 5, 7),
            t(Num(0), 7, 8),
            t(RightParen, 8, 9),
            t(LeftBlock, 10, 11),
            t(id("x"), 11, 12),
            t(Assign, 12, 13),
            t(Num(2), 13, 14),
            t(Semicolon, 14, 15),
            t(RightBlock, 15, 16),
        ])
    );
    assert_eq!(
        lex("while(){}"),
        Ok(vec![
            t(While, 0, 5),
            t(LeftParen, 5, 6),
            t(RightParen, 6, 7),
            t(LeftBlock, 7, 8),
            t(RightBlock, 8, 9),
        ])
    );
    assert_eq!(
        lex("for(i=0;i<1;i=i+1) {}"),
        Ok(vec![
            t(For, 0, 3),
            t(LeftParen, 3, 4),
            t(id("i"), 4, 5),
            t(Assign, 5, 6),
            t(Num(0), 6, 7),
            t(Semicolon, 7, 8),
            t(id("i"), 8, 9),
            t(Lt, 9, 10),
            t(Num(1), 10, 11),
            t(Semicolon, 11, 12),
            t(id("i"), 12, 13),
            t(Assign, 13, 14),
            t(id("i"), 14, 15),
            t(Plus, 15, 16),
            t(Num(1), 16, 17),
            t(RightParen, 17, 18),
            t(LeftBlock, 19, 20),
            t(RightBlock, 20, 21),
        ])
    );
}

#[test]
fn lexing_twice_gives_the_same_tokens() {
    let source = "for (ans=i=0; i<10; i=i+1) {ans = ans + i;} ans;";
    assert_eq!(lex(source), lex(source));
    let bad = "1 + $";
    assert_eq!(lex(bad), lex(bad));
}

#[test]
fn single_character_tokens() {
    assert_eq!(
        lex("+-*/^();{}"),
        Ok(vec![
            t(Plus, 0, 1),
            t(Minus, 1, 2),
            t(Mul, 2, 3),
            t(Div, 3, 4),
            t(Pow, 4, 5),
            t(LeftParen, 5, 6),
            t(RightParen, 6, 7),
            t(Semicolon, 7, 8),
            t(LeftBlock, 8, 9),
            t(RightBlock, 9, 10),
        ])
    );
}

#[test]
fn two_character_operators_fall_back_to_one() {
    assert_eq!(lex("="), Ok(vec![t(Assign, 0, 1)]));
    assert_eq!(lex("=="), Ok(vec![t(TokenKind::Eq, 0, 2)]));
    assert_eq!(lex("==="), Ok(vec![t(TokenKind::Eq, 0, 2), t(Assign, 2, 3)]));
    assert_eq!(lex("<"), Ok(vec![t(Lt, 0, 1)]));
    assert_eq!(lex("<1"), Ok(vec![t(Lt, 0, 1), t(Num(1), 1, 2)]));
    assert_eq!(lex(">x"), Ok(vec![t(Gt, 0, 1), t(id("x"), 1, 2)]));
    assert_eq!(lex("< ="), Ok(vec![t(Lt, 0, 1), t(Assign, 2, 3)]));
}

#[test]
fn bang_alone_is_no_token() {
    assert_eq!(
        lex("!"),
        Err(LexicalError::InvalidToken("!".to_string(), Span { start: 0, end: 1 }))
    );
    assert_eq!(
        lex("1 !2"),
        Err(LexicalError::InvalidToken("!".to_string(), Span { start: 2, end: 3 }))
    );
}

#[test]
fn unknown_character_is_an_error_with_its_span() {
    assert_eq!(
        lex("1 + $"),
        Err(LexicalError::InvalidToken("$".to_string(), Span { start: 4, end: 5 }))
    );
    let e = lex("ab €").unwrap_err();
    assert_eq!(e, LexicalError::InvalidToken("€".to_string(), Span { start: 3, end: 6 }));
    assert_eq!(e.span(), Some(Span { start: 3, end: 6 }));
    assert_eq!(LexicalError::Eof.span(), None);
}

#[test]
fn keywords_match_whole_words_only() {
    assert_eq!(lex("if"), Ok(vec![t(If, 0, 2)]));
    assert_eq!(lex("while"), Ok(vec![t(While, 0, 5)]));
    assert_eq!(lex("for"), Ok(vec![t(For, 0, 3)]));
    assert_eq!(lex("iff"), Ok(vec![t(id("iff"), 0, 3)]));
    assert_eq!(lex("fo"), Ok(vec![t(id("fo"), 0, 2)]));
    assert_eq!(lex("For"), Ok(vec![t(id("For"), 0, 3)]));
    assert_eq!(lex("while1"), Ok(vec![t(id("while1"), 0, 6)]));
    assert_eq!(lex("x1y2"), Ok(vec![t(id("x1y2"), 0, 4)]));
}

#[test]
fn number_is_a_maximal_run_of_digits() {
    assert_eq!(lex("12ab"), Ok(vec![t(Num(12), 0, 2), t(id("ab"), 2, 4)]));
    assert_eq!(lex("007"), Ok(vec![t(Num(7), 0, 3)]));
    assert_eq!(lex("0"), Ok(vec![t(Num(0), 0, 1)]));
    assert_eq!(lex("2147483647"), Ok(vec![t(Num(2147483647), 0, 10)]));
}

#[test]
fn literal_beyond_32_bits_is_an_error() {
    assert_eq!(
        lex("2147483648"),
        Err(LexicalError::InvalidToken("2147483648".to_string(), Span { start: 0, end: 10 }))
    );
    assert_eq!(
        lex("1+99999999999999999999999;"),
        Err(LexicalError::InvalidToken(
            "99999999999999999999999".to_string(),
            Span { start: 2, end: 25 }
        ))
    );
}

#[test]
fn spans_count_bytes_of_wide_characters() {
    assert_eq!(lex("é+1"), Ok(vec![t(id("é"), 0, 2), t(Plus, 2, 3), t(Num(1), 3, 4)]));
    assert_eq!(lex("変数=1"), Ok(vec![t(id("変数"), 0, 6), t(Assign, 6, 7), t(Num(1), 7, 8)]));
    assert_eq!(lex("a\u{3000}b"), Ok(vec![t(id("a"), 0, 1), t(id("b"), 4, 5)]));
    assert_eq!(lex("\u{a0}1"), Ok(vec![t(Num(1), 2, 3)]));
    assert_eq!(lex("x٣"), Ok(vec![t(id("x٣"), 0, 3)]));
    assert_eq!(
        lex("😀"),
        Err(LexicalError::InvalidToken("😀".to_string(), Span { start: 0, end: 4 }))
    );
}

#[test]
fn white_space_is_skipped_between_tokens() {
    assert_eq!(lex(""), Ok(vec![]));
    assert_eq!(lex(" \t\r\n\u{b}\u{c}"), Ok(vec![]));
    assert_eq!(lex("\t1\n+\r2 "), Ok(vec![t(Num(1), 1, 2), t(Plus, 3, 4), t(Num(2), 5, 6)]));
    assert_eq!(lex("1 2"), Ok(vec![t(Num(1), 0, 1), t(Num(2), 2, 3)]));
}

#[test]
fn next_token_ends_with_eof() {
    let mut lexer = Lexer::new("a 1");
    assert_eq!(lexer.next_token(), Ok(t(id("a"), 0, 1)));
    assert_eq!(lexer.next_token(), Ok(t(Num(1), 2, 3)));
    assert_eq!(lexer.next_token(), Err(LexicalError::Eof));
    assert_eq!(lexer.next_token(), Err(LexicalError::Eof));
    assert_eq!(lexer.lex(), Ok(vec![]));
}

#[test]
fn bump_and_the_scanners_move_the_cursor() {
    let mut lexer = Lexer::new("é12 ab3+");
    assert_eq!(lexer.bump(), Some('é'));
    assert_eq!(lexer.bump(), Some('1'));
    assert_eq!(lexer.next_number(), Some(12));
    assert_eq!(lexer.bump(), Some(' '));
    assert_eq!(lexer.bump(), Some('a'));
    assert_eq!(lexer.next_ident(), "ab3".to_string());
    assert_eq!(lexer.next_token(), Ok(t(Plus, 8, 9)));
    assert_eq!(lexer.bump(), None);
}

#[test]
fn next_number_reports_overflow() {
    let mut lexer = Lexer::new("2147483648");
    assert_eq!(lexer.bump(), Some('2'));
    assert_eq!(lexer.next_number(), None);
    assert_eq!(lexer.bump(), None);
}

#[test]
fn token_kinds_compare_and_copy() {
    assert!(Plus.same(&Plus));
    assert!(!Plus.same(&Minus));
    assert!(Num(3).same(&Num(3)));
    assert!(!Num(3).same(&Num(4)));
    assert!(id("a").same(&id("a")));
    assert!(!id("a").same(&id("b")));
    assert!(!id("if").same(&If));
    assert_eq!(id("abc").duplicate(), id("abc"));
    assert_eq!(t(Num(5), 1, 2).duplicate(), t(Num(5), 1, 2));
}

#[test]
fn character_classes() {
    for c in [' ', '\t', '\n', '\u{b}', '\u{c}', '\r'] {
        assert!(space_from(c, false));
        assert!(is_space_char(c));
    }
    for c in ['a', 'z', 'A', 'Z'] {
        assert!(letter_from(c, false) && word_from(c, false) && !space_from(c, true));
        assert!(is_letter_char(c) && is_word_char(c) && !is_space_char(c));
    }
    for c in ['0', '5', '9'] {
        assert!(!letter_from(c, true) && word_from(c, false));
        assert!(is_digit_char(c) && !is_letter_char(c) && is_word_char(c));
    }
    for c in ['_', '$', '+', '\u{0}', '\u{7f}', '@', '[', '`', '{', '/', ':'] {
        assert!(!letter_from(c, true) && !word_from(c, true) && !space_from(c, true));
        assert!(!is_letter_char(c) && !is_word_char(c) && !is_space_char(c) && !is_digit_char(c));
    }
    for c in ['\u{85}', '\u{a0}', '\u{2028}', '\u{3000}'] {
        assert!(space_from(c, true) && !space_from(c, false));
        assert!(is_space_char(c) && !is_letter_char(c) && !is_word_char(c));
    }
    for c in ['é', 'ß', 'λ', '変'] {
        assert!(letter_from(c, true) && !letter_from(c, false));
        assert!(is_letter_char(c) && is_word_char(c) && !is_space_char(c));
    }
    for c in ['٣', '²'] {
        assert!(!is_letter_char(c) && is_word_char(c) && !is_digit_char(c));
    }
    assert!(!is_word_char('€') && !is_letter_char('😀'));
}

#[test]
fn widths_and_digits() {
    assert_eq!(len_utf8('a'), 1);
    assert_eq!(len_utf8('\u{7f}'), 1);
    assert_eq!(len_utf8('\u{80}'), 2);
    assert_eq!(len_utf8('\u{7ff}'), 2);
    assert_eq!(len_utf8('\u{800}'), 3);
    assert_eq!(len_utf8('\u{ffff}'), 3);
    assert_eq!(len_utf8('\u{10000}'), 4);
    assert_eq!(len_utf8('\u{10ffff}'), 4);
    for c in ['a', 'é', '€', '😀', '\u{d7ff}', '\u{e000}'] {
        assert_eq!(len_utf8(c), c.len_utf8());
    }
    assert_eq!(digit_of('0'), 0);
    assert_eq!(digit_of('7'), 7);
    assert_eq!(digit_of('9'), 9);
}
