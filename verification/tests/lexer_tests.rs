use symgraph::lexer::{scan_lexeme, tokenize, tokenize_bytes, LexemeClass};
use symgraph::token::{LexError, LexErrorKind, Token, TokenKind};

fn texts(tokens: &[Token]) -> Vec<String> {
    tokens.iter().map(|t| String::from_utf8(t.text.clone()).unwrap()).collect()
}

fn kinds(tokens: &[Token]) -> Vec<TokenKind> {
    tokens.iter().map(|t| t.kind).collect()
}

#[test]
fn empty_text_has_no_tokens() {
    let (tokens, errors) = tokenize("");
    assert!(tokens.is_empty());
    assert!(errors.is_empty());
}

#[test]
fn enum_declaration_tokens() {
    let (tokens, errors) = tokenize("enum StatusCode { Success = 200, Unauthorized = 401 }");
    assert!(errors.is_empty());
    assert_eq!(
        texts(&tokens),
        vec!["enum", "StatusCode", "{", "Success", "=", "200", ",", "Unauthorized", "=", "401", "}"]
    );
    assert_eq!(
        kinds(&tokens),
        vec![
            TokenKind::Keyword,
            TokenKind::Identifier,
            TokenKind::Punctuation,
            TokenKind::Identifier,
            TokenKind::Punctuation,
            TokenKind::Literal,
            TokenKind::Punctuation,
            TokenKind::Identifier,
            TokenKind::Punctuation,
            TokenKind::Literal,
            TokenKind::Punctuation,
        ]
    );
}

#[test]
fn positions_count_lines_and_columns_from_zero() {
    let (tokens, _) = tokenize("fn a\n  struct B\n");
    assert_eq!(tokens.len(), 4);
    assert_eq!((tokens[0].offset, tokens[0].line, tokens[0].column), (0, 0, 0));
    assert_eq!((tokens[1].offset, tokens[1].line, tokens[1].column), (3, 0, 3));
    assert_eq!((tokens[2].offset, tokens[2].line, tokens[2].column), (7, 1, 2));
    assert_eq!((tokens[3].offset, tokens[3].line, tokens[3].column), (14, 1, 9));
}

#[test]
fn numeric_literals_keep_their_suffix() {
    let (tokens, errors) = tokenize("200u32 1.5f64 0xFF_u8 1_000 7.max 0..3");
    assert!(errors.is_empty());
    assert_eq!(
        texts(&tokens),
        vec!["200u32", "1.5f64", "0xFF_u8", "1_000", "7", ".", "max", "0", ".", ".", "3"]
    );
    assert_eq!(tokens[0].kind, TokenKind::Literal);
    assert_eq!(tokens[1].kind, TokenKind::Literal);
    assert_eq!(tokens[2].kind, TokenKind::Literal);
    assert_eq!(tokens[6].kind, TokenKind::Identifier);
}

#[test]
fn strings_with_escapes() {
    let (tokens, errors) = tokenize(r#"let s = "a \" b\\"; x"#);
    assert!(errors.is_empty());
    assert_eq!(texts(&tokens), vec!["let", "s", "=", r#""a \" b\\""#, ";", "x"]);
    assert_eq!(tokens[3].kind, TokenKind::Literal);
}

#[test]
fn raw_and_byte_strings_are_literals() {
    let text = "r\"a\\\" r#\"x \" y\"# br##\"q\"# \"##  b\"bytes\" b'c' b'\\n' rest r#abc";
    let (tokens, errors) = tokenize(text);
    assert!(errors.is_empty());
    assert_eq!(
        texts(&tokens),
        vec![
            "r\"a\\\"",
            "r#\"x \" y\"#",
            "br##\"q\"# \"##",
            "b\"bytes\"",
            "b'c'",
            "b'\\n'",
            "rest",
            "r",
            "#",
            "abc"
        ]
    );
    for t in &tokens[0..6] {
        assert_eq!(t.kind, TokenKind::Literal);
    }
    assert_eq!(tokens[6].kind, TokenKind::Identifier);
    assert_eq!(tokens[7].kind, TokenKind::Identifier);
}

#[test]
fn characters_and_lifetimes() {
    let (tokens, errors) = tokenize("'a' '\\'' '\\u{1F600}' 'é' &'a str 'static");
    assert!(errors.is_empty());
    assert_eq!(
        texts(&tokens),
        vec!["'a'", "'\\''", "'\\u{1F600}'", "'é'", "&", "'", "a", "str", "'", "static"]
    );
    assert_eq!(tokens[0].kind, TokenKind::Literal);
    assert_eq!(tokens[1].kind, TokenKind::Literal);
    assert_eq!(tokens[2].kind, TokenKind::Literal);
    assert_eq!(tokens[3].kind, TokenKind::Literal);
    assert_eq!(tokens[5].kind, TokenKind::Punctuation);
    assert_eq!(tokens[6].kind, TokenKind::Identifier);
    assert_eq!(tokens[9].kind, TokenKind::Keyword);
}

#[test]
fn comments_are_tokens() {
    let (tokens, errors) = tokenize("/// doc\n// plain\nfn /* in /* nested */ still */ x");
    assert!(errors.is_empty());
    assert_eq!(
        texts(&tokens),
        vec!["/// doc", "// plain", "fn", "/* in /* nested */ still */", "x"]
    );
    assert_eq!(tokens[0].kind, TokenKind::Comment);
    assert_eq!(tokens[1].kind, TokenKind::Comment);
    assert_eq!(tokens[3].kind, TokenKind::Comment);
    assert_eq!(tokens[4].kind, TokenKind::Identifier);
}

#[test]
fn unterminated_string_is_reported_and_lexing_resumes_on_the_next_line() {
    let (tokens, errors) = tokenize("let a = \"oops\nstruct B;");
    assert_eq!(
        errors,
        vec![LexError { reason: LexErrorKind::UnterminatedString, offset: 8, line: 0, column: 8 }]
    );
    assert_eq!(texts(&tokens), vec!["let", "a", "=", "struct", "B", ";"]);
    assert_eq!(tokens[3].line, 1);
}

#[test]
fn unterminated_comment_is_reported_and_lexing_resumes_on_the_next_line() {
    let (tokens, errors) = tokenize("x /* /* inner */ never closed\nfn f");
    assert_eq!(
        errors,
        vec![LexError { reason: LexErrorKind::UnterminatedComment, offset: 2, line: 0, column: 2 }]
    );
    assert_eq!(texts(&tokens), vec!["x", "fn", "f"]);
}

#[test]
fn all_errors_are_collected() {
    let (tokens, errors) = tokenize("/* a\n r#\"b\n/* c\nok");
    assert_eq!(errors.len(), 3);
    assert_eq!(errors[0].reason, LexErrorKind::UnterminatedComment);
    assert_eq!(errors[1].reason, LexErrorKind::UnterminatedString);
    assert_eq!((errors[1].line, errors[1].column), (1, 1));
    assert_eq!(errors[2].reason, LexErrorKind::UnterminatedComment);
    assert_eq!((errors[2].line, errors[2].column), (2, 0));
    assert_eq!(texts(&tokens), vec!["ok"]);
}

#[test]
fn keywords_and_identifiers() {
    let (tokens, _) = tokenize("pub struct structure Self selfish _x impl for where");
    assert_eq!(
        kinds(&tokens),
        vec![
            TokenKind::Keyword,
            TokenKind::Keyword,
            TokenKind::Identifier,
            TokenKind::Keyword,
            TokenKind::Identifier,
            TokenKind::Identifier,
            TokenKind::Keyword,
            TokenKind::Keyword,
            TokenKind::Keyword,
        ]
    );
}

#[test]
fn lexing_is_restartable() {
    let text = b"fn  main";
    assert_eq!(scan_lexeme(text, 0), (LexemeClass::Token(TokenKind::Keyword), 2));
    assert_eq!(scan_lexeme(text, 2), (LexemeClass::Blank, 4));
    assert_eq!(scan_lexeme(text, 4), (LexemeClass::Token(TokenKind::Identifier), 8));
    assert_eq!(scan_lexeme(text, 0), (LexemeClass::Token(TokenKind::Keyword), 2));
    assert_eq!(tokenize_bytes(text), tokenize_bytes(text));
}

#[test]
fn tokens_cover_the_text_in_order() {
    let text = "impl<T: Clone> SessionManager<T> { fn get(&self) -> Option<T> { None } }";
    let (tokens, errors) = tokenize(text);
    assert!(errors.is_empty());
    let mut last = 0;
    for t in &tokens {
        assert!(t.offset >= last);
        assert_eq!(&text.as_bytes()[t.offset..t.offset + t.text.len()], &t.text[..]);
        last = t.offset + t.text.len();
    }
    assert_eq!(last, text.len());
}
