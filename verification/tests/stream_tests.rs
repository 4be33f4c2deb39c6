use symgraph::lexer::tokenize;
use symgraph::stream::{Lexed, Lexer};
use symgraph::token::{LexError, LexErrorKind, Token, TokenKind};

fn drain(text: &str) -> (Vec<Token>, Vec<LexError>) {
    let mut lexer = Lexer::new(text.as_bytes());
    let mut tokens = Vec::new();
    let mut errors = Vec::new();
    loop {
        match lexer.next_item() {
            Some(Lexed::Token(t)) => tokens.push(t),
            Some(Lexed::Error(e)) => errors.push(e),
            None => break,
        }
    }
    assert_eq!(lexer.offset(), text.len());
    assert_eq!(lexer.next_item(), None);
    (tokens, errors)
}

#[test]
fn stream_yields_one_item_at_a_time() {
    let mut lexer = Lexer::new(b"  fn main ( )");
    assert_eq!(lexer.offset(), 0);
    let first = lexer.next_item();
    assert_eq!(
        first,
        Some(Lexed::Token(Token {
            kind: TokenKind::Keyword,
            text: b"fn".to_vec(),
            offset: 2,
            line: 0,
            column: 2,
        }))
    );
    assert_eq!(lexer.offset(), 4);
    let second = lexer.next_item();
    assert_eq!(
        second,
        Some(Lexed::Token(Token {
            kind: TokenKind::Identifier,
            text: b"main".to_vec(),
            offset: 5,
            line: 0,
            column: 5,
        }))
    );
    assert_eq!(lexer.offset(), 9);
}

#[test]
fn stream_ends_with_none() {
    let mut lexer = Lexer::new(b"a  \n ");
    assert!(lexer.next_item().is_some());
    assert_eq!(lexer.next_item(), None);
    assert_eq!(lexer.offset(), 5);
    assert_eq!(lexer.next_item(), None);
    let mut empty = Lexer::new(b"");
    assert_eq!(empty.next_item(), None);
}

#[test]
fn stream_reports_errors_in_place() {
    let mut lexer = Lexer::new(b"a \"open\nb");
    assert!(matches!(lexer.next_item(), Some(Lexed::Token(_))));
    assert_eq!(
        lexer.next_item(),
        Some(Lexed::Error(LexError {
            reason: LexErrorKind::UnterminatedString,
            offset: 2,
            line: 0,
            column: 2,
        }))
    );
    assert_eq!(lexer.offset(), 7);
    assert_eq!(
        lexer.next_item(),
        Some(Lexed::Token(Token {
            kind: TokenKind::Identifier,
            text: b"b".to_vec(),
            offset: 8,
            line: 1,
            column: 0,
        }))
    );
}

#[test]
fn stream_agrees_with_tokenize() {
    let texts = [
        "",
        "struct A { x: u8 }",
        "/* a /* b */ c */ fn f<'a>(x: &'a str) -> char { 'x' }",
        "r#\"raw\"# b\"bytes\" 1.5e3 \"open\nnext /* open\nlast",
        "   \n\t\r\n  ",
    ];
    for text in texts {
        assert_eq!(drain(text), tokenize(text));
    }
}

#[test]
fn streams_can_be_restarted() {
    let text = "enum E { A = 1, B = 2 }";
    assert_eq!(drain(text), drain(text));
    let mut one = Lexer::new(text.as_bytes());
    let mut two = Lexer::new(text.as_bytes());
    one.next_item();
    one.next_item();
    assert_eq!(two.next_item(), Lexer::new(text.as_bytes()).next_item());
}
