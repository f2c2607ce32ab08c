use tdlang::lex::{Lex, Pos};
use tdlang::token::{Literal, Token, TokenKind};

fn kinds(src: &str) -> Vec<TokenKind> {
    let tokens = Lex::new(src).try_all().expect("lexes");
    tokens.iter().map(|(t, _)| t.kind()).collect()
}

#[test]
fn let_statement_tokens() {
    let tokens = Lex::new("let x = 1;").try_all().expect("lexes");
    assert_eq!(tokens.len(), 6);
    assert!(matches!(tokens[0].0, Token::Let));
    assert!(matches!(&tokens[1].0, Token::Ident(n) if n == "x"));
    assert!(matches!(tokens[2].0, Token::Assign));
    assert!(matches!(tokens[3].0, Token::Literal(Literal::Int(1))));
    assert!(matches!(tokens[4].0, Token::Semicolon));
    assert!(matches!(tokens[5].0, Token::Eof));
    assert_eq!(tokens[1].1.offset, 4);
    assert_eq!(tokens[3].1.offset, 8);
    assert_eq!(tokens[5].1.offset, 10);
}

#[test]
fn two_char_operators() {
    assert_eq!(
        kinds("== != <= >= << >> && || -> ::"),
        vec![
            TokenKind::Equal,
            TokenKind::NotEqual,
            TokenKind::LessEqual,
            TokenKind::GreaterEqual,
            TokenKind::ShiftLeft,
            TokenKind::ShiftRight,
            TokenKind::And,
            TokenKind::Or,
            TokenKind::Arrow,
            TokenKind::Path,
            TokenKind::Eof,
        ]
    );
}

#[test]
fn single_char_operators() {
    assert_eq!(
        kinds("= ! < > & | ^ ~ + - * / % : . ,"),
        vec![
            TokenKind::Assign,
            TokenKind::Not,
            TokenKind::Less,
            TokenKind::Greater,
            TokenKind::BitAnd,
            TokenKind::BitOr,
            TokenKind::BitXor,
            TokenKind::BitNot,
            TokenKind::Plus,
            TokenKind::Minus,
            TokenKind::Star,
            TokenKind::Slash,
            TokenKind::Percent,
            TokenKind::Colon,
            TokenKind::Dot,
            TokenKind::Comma,
            TokenKind::Eof,
        ]
    );
}

#[test]
fn keywords_and_literals() {
    let tokens = Lex::new("fn struct return self nil true false if while else break continue foo")
        .try_all()
        .expect("lexes");
    let ks: Vec<TokenKind> = tokens.iter().map(|(t, _)| t.kind()).collect();
    assert_eq!(
        ks,
        vec![
            TokenKind::Fn,
            TokenKind::Struct,
            TokenKind::Return,
            TokenKind::SelfArg,
            TokenKind::Literal,
            TokenKind::Literal,
            TokenKind::Literal,
            TokenKind::If,
            TokenKind::While,
            TokenKind::Else,
            TokenKind::Break,
            TokenKind::Continue,
            TokenKind::Ident,
            TokenKind::Eof,
        ]
    );
    assert!(matches!(tokens[4].0, Token::Literal(Literal::Nil)));
    assert!(matches!(tokens[5].0, Token::Literal(Literal::Bool(true))));
    assert!(matches!(tokens[6].0, Token::Literal(Literal::Bool(false))));
}

#[test]
fn numbers_int_and_float() {
    let tokens = Lex::new("42 3.25 7.x").try_all().expect("lexes");
    assert!(matches!(tokens[0].0, Token::Literal(Literal::Int(42))));
    assert!(matches!(&tokens[1].0, Token::Literal(Literal::Float(t)) if t == "3.25"));
    assert!(matches!(tokens[2].0, Token::Literal(Literal::Int(7))));
    assert!(matches!(tokens[3].0, Token::Dot));
    assert!(matches!(&tokens[4].0, Token::Ident(n) if n == "x"));
}

#[test]
fn string_literal_with_escapes() {
    let tokens = Lex::new("\"a\\tb\\\"c\"").try_all().expect("lexes");
    assert!(matches!(&tokens[0].0, Token::Literal(Literal::String(s)) if s == "a\tb\"c"));
    assert!(matches!(tokens[1].0, Token::Eof));
}

#[test]
fn newlines_move_position() {
    let tokens = Lex::new("a\nb\r\nc").try_all().expect("lexes");
    assert!(matches!(tokens[1].0, Token::NewLine));
    assert_eq!(tokens[2].1.line, 1);
    assert_eq!(tokens[2].1.offset, 0);
    assert!(matches!(tokens[3].0, Token::NewLine));
    assert_eq!(tokens[4].1.line, 2);
    assert_eq!(tokens[4].1.offset, 0);
}

#[test]
fn unknown_character() {
    let tokens = Lex::new("@").try_all().expect("lexes");
    assert!(matches!(tokens[0].0, Token::Unknown));
    assert!(matches!(tokens[1].0, Token::Eof));
}

#[test]
fn empty_input_is_just_eof() {
    let tokens = Lex::new("").try_all().expect("lexes");
    assert_eq!(tokens.len(), 1);
    assert!(matches!(tokens[0].0, Token::Eof));
    assert_eq!(tokens[0].1.line, 0);
}

#[test]
fn lexer_primitives() {
    let mut lex = Lex::new("ab:c");
    assert_eq!(lex.first(), 'a');
    assert_eq!(lex.second(), 'b');
    assert!(lex.peek_check("ab"));
    assert!(!lex.peek_check("ac"));
    assert_eq!(lex.bump(), Some('a'));
    lex.skip(1);
    assert_eq!(lex.first(), ':');
    lex.skip(10);
    assert_eq!(lex.bump(), None);
    assert_eq!(lex.first(), '\0');
}

#[test]
fn default_pos_is_start() {
    let p = Pos::default();
    assert_eq!(p.line, 0);
    assert_eq!(p.offset, 0);
}

#[test]
fn whitespace_is_dropped() {
    assert_eq!(kinds("  \t x"), vec![TokenKind::Ident, TokenKind::Eof]);
}
