use symgraph::analysis::canonicalize;
use symgraph::canon::write_lines;
use symgraph::lexer::tokenize;
use symgraph::parser::parse;
use symgraph::syntax::{ChildNode, Cst, DeclarationNode, ParseError, ParseErrorKind};
use symgraph::token::{Token, TokenKind};

fn parse_text(text: &str) -> (Cst, Vec<ParseError>) {
    let (tokens, _) = tokenize(text);
    parse(&tokens)
}

fn canonical(text: &str) -> String {
    String::from_utf8(parse_text(text).0.canonical()).unwrap()
}

fn child_shape(c: &ChildNode) -> ChildNode {
    ChildNode { body_start: 0, body_end: 0, ..c.clone() }
}

fn shape(cst: &Cst) -> Vec<DeclarationNode> {
    cst.declarations
        .iter()
        .map(|d| DeclarationNode {
            children: d.children.iter().map(child_shape).collect(),
            offset: 0,
            line: 0,
            column: 0,
            ..d.clone()
        })
        .collect()
}

fn reasons(errors: &[ParseError]) -> Vec<ParseErrorKind> {
    errors.iter().map(|e| e.reason).collect()
}

const SAMPLES: [&str; 7] = [
    "",
    "enum StatusCode { Success = 200, Unauthorized = 401 }",
    "/// Doc\n#[derive(Debug, Clone)]\npub struct User<'a, T: Clone> {\n    pub name: &'a str, // plain\n    items: Vec<Option<T>>,\n}\n",
    "trait T { fn a(&self) -> u8; fn b(&self) -> char { 'x' } }\nimpl T for S { fn a(&self) -> u8 { b'\\n' } }",
    "fn f() -> &'static str { r#\"raw \" text\"# }\ntype A = B<C>;\nuse a::{b, c};",
    "struct { broken\nstruct Fine;\nlet s = \"open string\nstruct After;",
    "a/ /b ' ' r #x br\"q\" 1. 5 1.5 /* c /* d */ */ 'é' it's",
];

#[test]
fn canonical_form_puts_one_token_on_each_line() {
    assert_eq!(canonical("struct  A{x:u8}"), "struct\nA\n{\nx\n:\nu8\n}\n");
    assert_eq!(canonical(""), "");
    assert_eq!(canonical("  \n "), "");
    assert_eq!(canonical("// note\nfn f ( ) ;"), "// note\nfn\nf\n(\n)\n;\n");
}

#[test]
fn canonical_form_is_idempotent() {
    for text in SAMPLES {
        let once = canonical(text);
        let twice = canonical(&once);
        assert_eq!(once, twice);
    }
}

#[test]
fn canonical_form_has_no_lexical_error() {
    for text in SAMPLES {
        let (_, errors) = tokenize(&canonical(text));
        assert!(errors.is_empty());
    }
}

#[test]
fn canonical_form_keeps_the_tokens() {
    for text in SAMPLES {
        let (before, _) = tokenize(text);
        let (after, _) = tokenize(&canonical(text));
        let bare = |ts: &[Token]| -> Vec<(TokenKind, Vec<u8>)> {
            ts.iter().map(|t| (t.kind, t.text.clone())).collect()
        };
        assert_eq!(bare(&before), bare(&after));
    }
}

#[test]
fn canonical_form_parses_to_a_tree_of_the_same_shape() {
    for text in SAMPLES {
        let (cst, errors) = parse_text(text);
        let (again, errors_again) = parse_text(&canonical(text));
        assert_eq!(shape(&cst), shape(&again));
        assert_eq!(reasons(&errors), reasons(&errors_again));
    }
}

#[test]
fn layout_does_not_change_the_shape() {
    let dense = "struct A<T>{a:Vec<T>,b:u8}impl<T>A<T>{fn f(&self)->u8{1}}";
    let loose = "struct  A < T >\n{\n  a : Vec < T > ,\n  /* note */ b : u8\n}\n\nimpl < T > A < T > {\n  fn f ( & self ) -> u8 { 1 }\n}\n";
    let (one, e1) = parse_text(dense);
    let (two, e2) = parse_text(loose);
    assert!(e1.is_empty() && e2.is_empty());
    assert_eq!(shape(&one), shape(&two));
    assert_ne!(one.declarations[1].offset, two.declarations[1].offset);
}

#[test]
fn canonicalize_writes_the_tree_out() {
    for text in SAMPLES {
        assert_eq!(canonicalize(text), canonical(text).into_bytes());
        let once = String::from_utf8(canonicalize(text)).unwrap();
        assert_eq!(canonicalize(&once), once.clone().into_bytes());
    }
}

#[test]
fn tree_keeps_its_tokens() {
    let (tokens, _) = tokenize("struct A; // trailing");
    let (cst, _) = parse(&tokens);
    assert_eq!(cst.tokens, tokens);
    assert_eq!(write_lines(&tokens), cst.canonical());
    assert_eq!(cst.canonical(), b"struct\nA\n;\n// trailing\n".to_vec());
}
