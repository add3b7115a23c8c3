use basic_compiler::lexer::Lexer;
use basic_compiler::span::{Position, Span};
use basic_compiler::token::{Token, TokenKind};

fn kinds(tokens: &[Token]) -> Vec<TokenKind> {
    tokens.iter().map(|t| t.kind.clone()).collect()
}

fn span(a: (usize, usize, usize), b: (usize, usize, usize)) -> Span {
    Span::new(Position::new(a.0, a.1, a.2), Position::new(b.0, b.1, b.2))
}

#[test]
fn lexes_display_of_a_number() {
    let tokens = Lexer::lex("Disp 5\n");
    assert_eq!(
        kinds(&tokens),
        vec![TokenKind::Disp, TokenKind::NumberLit("5".to_string()), TokenKind::Newline, TokenKind::EOF]
    );
    assert_eq!(tokens[0].span, span((1, 1, 0), (1, 5, 4)));
    assert_eq!(tokens[1].span, span((1, 6, 5), (1, 7, 6)));
    assert_eq!(tokens[2].span, span((1, 7, 6), (2, 1, 7)));
    assert_eq!(tokens[3].span, span((2, 1, 7), (2, 1, 7)));
    assert_eq!(tokens[0].span.len, 4);
}

#[test]
fn lexes_store_arrow_and_variables() {
    let tokens = Lexer::lex("A->B\n");
    assert_eq!(
        kinds(&tokens),
        vec![TokenKind::Var('A'), TokenKind::Arrow, TokenKind::Var('B'), TokenKind::Newline, TokenKind::EOF]
    );
    assert_eq!(tokens[1].span, span((1, 2, 1), (1, 4, 3)));
}

#[test]
fn lexes_operators() {
    let tokens = Lexer::lex("(1+2)*3-4/5=6!=7<8<=1>2>=3!4,.\n");
    assert_eq!(
        kinds(&tokens),
        vec![
            TokenKind::LParen,
            TokenKind::NumberLit("1".to_string()),
            TokenKind::Plus,
            TokenKind::NumberLit("2".to_string()),
            TokenKind::RParen,
            TokenKind::Star,
            TokenKind::NumberLit("3".to_string()),
            TokenKind::Minus,
            TokenKind::NumberLit("4".to_string()),
            TokenKind::Slash,
            TokenKind::NumberLit("5".to_string()),
            TokenKind::Equal,
            TokenKind::NumberLit("6".to_string()),
            TokenKind::BangEqual,
            TokenKind::NumberLit("7".to_string()),
            TokenKind::Less,
            TokenKind::NumberLit("8".to_string()),
            TokenKind::LessEqual,
            TokenKind::NumberLit("1".to_string()),
            TokenKind::Greater,
            TokenKind::NumberLit("2".to_string()),
            TokenKind::GreaterEqual,
            TokenKind::NumberLit("3".to_string()),
            TokenKind::Bang,
            TokenKind::NumberLit("4".to_string()),
            TokenKind::Comma,
            TokenKind::Dot,
            TokenKind::Newline,
            TokenKind::EOF,
        ]
    );
}

#[test]
fn lexes_keywords() {
    let tokens = Lexer::lex("If Then Else For While Repeat End Pause Lbl Goto Disp And Or Xor\n");
    assert_eq!(
        kinds(&tokens),
        vec![
            TokenKind::If,
            TokenKind::Then,
            TokenKind::Else,
            TokenKind::For,
            TokenKind::While,
            TokenKind::Repeat,
            TokenKind::End,
            TokenKind::Pause,
            TokenKind::Lbl,
            TokenKind::Goto,
            TokenKind::Disp,
            TokenKind::And,
            TokenKind::Or,
            TokenKind::Xor,
            TokenKind::Newline,
            TokenKind::EOF,
        ]
    );
}

#[test]
fn unknown_words_are_errors() {
    let tokens = Lexer::lex("Hello a\n");
    assert_eq!(
        kinds(&tokens),
        vec![
            TokenKind::Error("Hello".to_string()),
            TokenKind::Error("a".to_string()),
            TokenKind::Newline,
            TokenKind::EOF,
        ]
    );
}

#[test]
fn lexes_decimal_numbers() {
    let tokens = Lexer::lex("12.50 3.x\n");
    assert_eq!(
        kinds(&tokens),
        vec![
            TokenKind::NumberLit("12.50".to_string()),
            TokenKind::NumberLit("3".to_string()),
            TokenKind::Dot,
            TokenKind::Error("x".to_string()),
            TokenKind::Newline,
            TokenKind::EOF,
        ]
    );
}

#[test]
fn a_leading_nine_is_an_error() {
    // Numbers start with the digits 0 to 8; a 9 only continues one.
    let tokens = Lexer::lex("9 19\n");
    assert_eq!(
        kinds(&tokens),
        vec![
            TokenKind::Error("9".to_string()),
            TokenKind::NumberLit("19".to_string()),
            TokenKind::Newline,
            TokenKind::EOF,
        ]
    );
}

#[test]
fn lexes_string_literals() {
    let tokens = Lexer::lex("Disp \"hi there\"\n");
    assert_eq!(
        kinds(&tokens),
        vec![TokenKind::Disp, TokenKind::StringLit("hi there".to_string()), TokenKind::Newline, TokenKind::EOF]
    );
    assert_eq!(tokens[1].span, span((1, 6, 5), (1, 16, 15)));
}

#[test]
fn blanks_swallow_a_following_newline() {
    let tokens = Lexer::lex("A \nB\n");
    assert_eq!(
        kinds(&tokens),
        vec![TokenKind::Var('A'), TokenKind::Var('B'), TokenKind::Newline, TokenKind::EOF]
    );
    assert_eq!(tokens[1].span, span((2, 1, 3), (2, 2, 4)));
}

#[test]
fn tabs_are_errors() {
    let tokens = Lexer::lex("\t\n");
    assert_eq!(kinds(&tokens), vec![TokenKind::Error("\t".to_string()), TokenKind::Newline, TokenKind::EOF]);
}

#[test]
fn spans_count_bytes_of_wide_characters() {
    let tokens = Lexer::lex("É\n");
    assert_eq!(kinds(&tokens), vec![TokenKind::Error("É".to_string()), TokenKind::Newline, TokenKind::EOF]);
    assert_eq!(tokens[0].span, span((1, 1, 0), (1, 2, 2)));
    assert_eq!(tokens[2].span, span((2, 1, 3), (2, 1, 3)));
}

#[test]
fn empty_input_is_just_the_end() {
    let tokens = Lexer::lex("");
    assert_eq!(kinds(&tokens), vec![TokenKind::EOF]);
    assert_eq!(tokens[0].span, span((1, 1, 0), (1, 1, 0)));
}

#[test]
fn lexing_stops_at_unfinished_input() {
    assert!(Lexer::try_lex("Disp \"open\n").is_none());
    assert!(Lexer::try_lex("Disp 5").is_none());
    assert!(Lexer::try_lex("Disp 5.").is_none());
    assert!(Lexer::try_lex("Disp 5.25").is_none());
    assert!(Lexer::try_lex("Disp").is_none());
    assert!(Lexer::try_lex("Disp 5\n").is_some());
}

#[test]
fn scan_token_reads_one_token_at_a_time() {
    let mut lexer = Lexer::new("If X");
    assert!(!lexer.is_at_end());
    lexer.scan_token();
    assert!(!lexer.is_at_end());
}

#[test]
fn try_scan_answers_whether_a_step_can_be_taken() {
    let mut lexer = Lexer::new("\"ab");
    assert!(!lexer.try_scan());
    let mut lexer = Lexer::new("If X");
    assert!(lexer.try_scan());
    assert!(!lexer.is_at_end());
}

#[test]
fn white_space_is_the_unicode_property() {
    for u in 0u32..0x3100 {
        if let Some(c) = char::from_u32(u) {
            assert_eq!(basic_compiler::text::is_whitespace(c), c.is_whitespace(), "{:#x}", u);
        }
    }
    assert!(basic_compiler::text::is_whitespace('\u{3000}'));
    assert!(!basic_compiler::text::is_whitespace('\u{200B}'));
    assert!(!basic_compiler::text::is_whitespace('a'));
}
