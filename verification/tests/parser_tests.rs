use symgraph::lexer::tokenize;
use symgraph::parser::parse;
use symgraph::syntax::{
    ChildKind, Cst, DeclKind, ParseError, ParseErrorKind, TypeUse, Visibility,
};

fn parse_text(text: &str) -> (Cst, Vec<ParseError>) {
    let (tokens, errors) = tokenize(text);
    assert!(errors.is_empty());
    parse(&tokens)
}

fn names(list: &[Vec<u8>]) -> Vec<String> {
    list.iter().map(|n| String::from_utf8(n.clone()).unwrap()).collect()
}

fn uses(list: &[TypeUse]) -> Vec<(String, String)> {
    list.iter()
        .map(|u| {
            (String::from_utf8(u.name.clone()).unwrap(), String::from_utf8(u.within.clone()).unwrap())
        })
        .collect()
}

fn pair(a: &str, b: &str) -> (String, String) {
    (a.to_string(), b.to_string())
}

#[test]
fn enum_keeps_literal_discriminants() {
    let (cst, errors) = parse_text("enum StatusCode { Success = 200, Unauthorized = 401 }");
    assert!(errors.is_empty());
    assert_eq!(cst.declarations.len(), 1);
    let node = &cst.declarations[0];
    assert_eq!(node.kind, DeclKind::Enum);
    assert_eq!(node.name, b"StatusCode".to_vec());
    assert_eq!(node.children.len(), 2);
    assert_eq!(node.children[0].kind, ChildKind::Variant);
    assert_eq!(node.children[0].name, b"Success".to_vec());
    assert_eq!(node.children[0].discriminant, Some(b"200".to_vec()));
    assert_eq!(node.children[1].kind, ChildKind::Variant);
    assert_eq!(node.children[1].name, b"Unauthorized".to_vec());
    assert_eq!(node.children[1].discriminant, Some(b"401".to_vec()));
}

#[test]
fn variants_with_payloads_and_negative_discriminants() {
    let (cst, errors) =
        parse_text("enum E { A, B(User, Vec<Role>), C { who: Admin }, D = -1, F = 0x10u8, }");
    assert!(errors.is_empty());
    let kids = &cst.declarations[0].children;
    assert_eq!(kids.len(), 5);
    assert_eq!(kids[0].discriminant, None);
    assert!(kids[0].types.is_empty());
    assert_eq!(uses(&kids[1].types), vec![pair("User", ""), pair("Vec", ""), pair("Role", "Vec")]);
    assert_eq!(uses(&kids[2].types), vec![pair("Admin", "")]);
    assert_eq!(kids[3].discriminant, Some(b"-1".to_vec()));
    assert_eq!(kids[4].discriminant, Some(b"0x10u8".to_vec()));
}

#[test]
fn discriminant_must_be_a_literal() {
    let (cst, errors) = parse_text("enum E { A = B }\nstruct S;");
    assert_eq!(errors.len(), 1);
    assert_eq!(errors[0].reason, ParseErrorKind::ExpectedDiscriminant);
    assert_eq!((errors[0].line, errors[0].column), (0, 13));
    assert_eq!(cst.declarations.len(), 1);
    assert_eq!(cst.declarations[0].name, b"S".to_vec());
}

#[test]
fn struct_with_derives_docs_and_fields() {
    let text = "/// Base user\n#[derive(Debug, Clone)]\npub struct User {\n    pub username: String,\n    pub(crate) id: u32,\n    tags: Vec<Tag>,\n}";
    let (cst, errors) = parse_text(text);
    assert!(errors.is_empty());
    let node = &cst.declarations[0];
    assert_eq!(node.kind, DeclKind::Struct);
    assert_eq!(node.name, b"User".to_vec());
    assert_eq!(node.visibility, Visibility::Public);
    assert_eq!(node.docs, b"/// Base user\n".to_vec());
    assert_eq!(names(&node.markers), vec!["Debug", "Clone"]);
    assert_eq!((node.offset, node.line, node.column), (42, 2, 4));
    assert_eq!(node.children.len(), 3);
    assert_eq!(node.children[0].kind, ChildKind::Field);
    assert_eq!(node.children[0].name, b"username".to_vec());
    assert_eq!(uses(&node.children[0].types), vec![pair("String", "")]);
    assert_eq!(node.children[1].name, b"id".to_vec());
    assert_eq!(uses(&node.children[2].types), vec![pair("Vec", ""), pair("Tag", "Vec")]);
}

#[test]
fn tuple_and_unit_structs() {
    let (cst, errors) = parse_text("struct Pair<A, B>(pub A, Vec<B>) where A: Clone;\nstruct Unit;");
    assert!(errors.is_empty());
    assert_eq!(cst.declarations.len(), 2);
    let pair_node = &cst.declarations[0];
    assert_eq!(names(&pair_node.generics), vec!["A", "B"]);
    assert_eq!(pair_node.children.len(), 2);
    assert!(pair_node.children[0].name.is_empty());
    assert_eq!(uses(&pair_node.children[0].types), vec![pair("A", "")]);
    assert_eq!(uses(&pair_node.children[1].types), vec![pair("Vec", ""), pair("B", "Vec")]);
    assert_eq!(uses(&pair_node.types), vec![pair("Clone", "")]);
    assert_eq!(cst.declarations[1].kind, DeclKind::Struct);
    assert!(cst.declarations[1].children.is_empty());
}

#[test]
fn nested_generic_arguments_name_their_generic() {
    let (cst, errors) =
        parse_text("struct M<T> { sessions: Arc<RwLock<HashMap<String, T>>>, f: fn(A) -> B, r: &'a mut std::io::Error }");
    assert!(errors.is_empty());
    let kids = &cst.declarations[0].children;
    assert_eq!(
        uses(&kids[0].types),
        vec![
            pair("Arc", ""),
            pair("RwLock", "Arc"),
            pair("HashMap", "RwLock"),
            pair("String", "HashMap"),
            pair("T", "HashMap")
        ]
    );
    assert_eq!(uses(&kids[1].types), vec![pair("A", ""), pair("B", "")]);
    assert_eq!(uses(&kids[2].types), vec![pair("Error", "")]);
}

#[test]
fn trait_methods_keep_default_bodies_as_spans() {
    let text = "trait Greeter: Named { fn name(&self) -> String; fn greet(&self) -> String { format!(\"hi {}\", self.name()) } type Out; const N: usize = 3; }";
    let (cst, errors) = parse_text(text);
    assert!(errors.is_empty());
    let node = &cst.declarations[0];
    assert_eq!(node.kind, DeclKind::Trait);
    assert_eq!(node.visibility, Visibility::Private);
    assert_eq!(uses(&node.types), vec![pair("Named", "")]);
    assert_eq!(node.children.len(), 2);
    assert_eq!(node.children[0].kind, ChildKind::Method);
    assert_eq!(node.children[0].name, b"name".to_vec());
    assert!(!node.children[0].has_body);
    assert_eq!(node.children[1].name, b"greet".to_vec());
    assert!(node.children[1].has_body);
    let body = &text[node.children[1].body_start..node.children[1].body_end];
    assert_eq!(body, "{ format!(\"hi {}\", self.name()) }");
}

#[test]
fn implementations_keep_unresolved_names() {
    let (cst, errors) = parse_text(
        "impl Authenticator for AdminUser { fn authenticate(&self) -> bool { true } }\nimpl<T: Clone> SessionManager<T> { pub fn new() -> Self { make() } }\nimpl<'a> fmt::Display for &'a crate::model::User {}",
    );
    assert!(errors.is_empty());
    assert_eq!(cst.declarations.len(), 3);
    let first = &cst.declarations[0];
    assert_eq!(first.kind, DeclKind::Implementation);
    assert_eq!(first.name, b"AdminUser".to_vec());
    assert_eq!(first.trait_name, Some(b"Authenticator".to_vec()));
    assert_eq!(first.children.len(), 1);
    let second = &cst.declarations[1];
    assert_eq!(second.name, b"SessionManager".to_vec());
    assert_eq!(second.trait_name, None);
    assert_eq!(names(&second.generics), vec!["T"]);
    assert_eq!(second.children[0].name, b"new".to_vec());
    let third = &cst.declarations[2];
    assert_eq!(third.name, b"User".to_vec());
    assert_eq!(third.trait_name, Some(b"Display".to_vec()));
    assert_eq!(names(&third.generics), vec!["a"]);
}

#[test]
fn functions_and_aliases() {
    let (cst, errors) = parse_text(
        "pub type AuthResult<T> = Result<T, StatusCode>;\npub(crate) const unsafe fn run<T: A + B, const N: usize>(m: &Manager<T>) -> AuthResult<String> where T: Clone { if a < b { } }\nextern \"C\" fn ffi();",
    );
    assert!(errors.is_empty());
    assert_eq!(cst.declarations.len(), 3);
    let alias = &cst.declarations[0];
    assert_eq!(alias.kind, DeclKind::TypeAlias);
    assert_eq!(alias.name, b"AuthResult".to_vec());
    assert_eq!(names(&alias.generics), vec!["T"]);
    assert_eq!(
        uses(&alias.types),
        vec![pair("Result", ""), pair("T", "Result"), pair("StatusCode", "Result")]
    );
    let run = &cst.declarations[1];
    assert_eq!(run.kind, DeclKind::Function);
    assert_eq!(run.visibility, Visibility::Restricted);
    assert_eq!(run.name, b"run".to_vec());
    assert_eq!(names(&run.generics), vec!["T", "N"]);
    assert_eq!(
        uses(&run.types),
        vec![
            pair("Manager", ""),
            pair("T", "Manager"),
            pair("AuthResult", ""),
            pair("String", "AuthResult"),
            pair("Clone", "")
        ]
    );
    assert_eq!(cst.declarations[2].name, b"ffi".to_vec());
}

#[test]
fn imports_modules_and_constants_are_passed_over() {
    let (cst, errors) = parse_text(
        "use std::sync::{Arc, RwLock};\nmod inner { struct Hidden; }\nconst LIMIT: usize = 3;\nstatic NAME: &str = \"n\";\nstruct Seen;",
    );
    assert!(errors.is_empty());
    assert_eq!(cst.declarations.len(), 1);
    assert_eq!(cst.declarations[0].name, b"Seen".to_vec());
}

#[test]
fn plain_comments_are_dropped_anywhere() {
    let (cst, errors) =
        parse_text("struct /* a */ S // b\n{ x /* c */ : /* d */ u8, /// doc of y\n y: u8 }");
    assert!(errors.is_empty());
    assert_eq!(cst.declarations[0].children.len(), 2);
    assert_eq!(cst.declarations[0].children[1].name, b"y".to_vec());
}

#[test]
fn malformed_declaration_does_not_hide_the_others() {
    let (cst, errors) = parse_text("struct A { x: u8 }\nstruct { y: u8 }\nenum B { P }\n} } stray\nfn c() {}");
    assert_eq!(errors.len(), 2);
    assert_eq!(errors[0].reason, ParseErrorKind::ExpectedName);
    assert_eq!((errors[0].line, errors[0].column), (1, 7));
    assert_eq!(errors[1].reason, ParseErrorKind::ExpectedDeclaration);
    assert_eq!((errors[1].line, errors[1].column), (3, 0));
    let found: Vec<Vec<u8>> = cst.declarations.iter().map(|d| d.name.clone()).collect();
    assert_eq!(names(&found), vec!["A", "B", "c"]);
}

#[test]
fn unclosed_body_is_an_error_at_the_end() {
    let (cst, errors) = parse_text("struct A { x: u8 }\nstruct B { y: u8");
    assert_eq!(cst.declarations.len(), 1);
    assert_eq!(errors.len(), 1);
    assert_eq!(errors[0].reason, ParseErrorKind::UnclosedDelimiter);
    assert_eq!((errors[0].line, errors[0].column), (1, 14));
}

#[test]
fn other_parse_errors() {
    let (_, errors) = parse_text("struct A<T { }");
    assert_eq!(errors[0].reason, ParseErrorKind::UnclosedDelimiter);
    let (_, errors) = parse_text("struct A = 3;");
    assert_eq!(errors[0].reason, ParseErrorKind::ExpectedBody);
    let (_, errors) = parse_text("struct A { 3: u8 }");
    assert_eq!(errors[0].reason, ParseErrorKind::ExpectedField);
    let (_, errors) = parse_text("enum A { 3 }");
    assert_eq!(errors[0].reason, ParseErrorKind::ExpectedVariant);
    let (_, errors) = parse_text("trait A { struct }");
    assert_eq!(errors[0].reason, ParseErrorKind::ExpectedMember);
    let (_, errors) = parse_text("# struct A;");
    assert_eq!(errors[0].reason, ParseErrorKind::UnexpectedToken);
    let (_, errors) = parse_text("impl for A {}");
    assert_eq!(errors[0].reason, ParseErrorKind::ExpectedName);
}

#[test]
fn repeated_parses_give_the_same_tree() {
    let text = "#[derive(Debug)] pub struct A<T> { x: Vec<T> }\nimpl<T> A<T> { fn f(&self) {} }\nstruct";
    let first = parse_text_with_errors(text);
    let second = parse_text_with_errors(text);
    assert_eq!(first, second);
}

fn parse_text_with_errors(text: &str) -> (Cst, Vec<ParseError>) {
    let (tokens, _) = tokenize(text);
    parse(&tokens)
}

const RICH_SOURCE: &str = r##"
#![allow(dead_code)]
//! Crate docs
extern crate alloc;
use core::fmt::{self, Debug, Display};

pub(crate) mod inner {
    pub struct Hidden;
}

macro_rules! m { ($x:expr) => { $x + 1 }; }

/// A wrapper.
#[derive(Clone, Debug, Default, PartialEq)]
#[repr(C)]
pub struct Wrapper<'a, T, const N: usize = 4>
where
    T: Iterator<Item = u8> + 'a,
{
    #[allow(unused)]
    pub items: [T; N],
    pub callback: Box<dyn Fn(&T, usize) -> Result<(), fmt::Error> + Send + 'a>,
    pub map: std::collections::HashMap<String, Vec<(u8, &'a str)>>,
    marker: core::marker::PhantomData<&'a T>,
}

pub union Bits { a: u32, b: f32 }

pub enum Shape<T = f64> {
    /// A circle
    Circle { radius: T },
    Rect(T, T),
    #[default]
    Unit,
    Tagged = 7,
}

pub unsafe trait Marker: Send + Sync where Self: Sized {
    const ID: u32;
    type Output: Debug;
    fn make<F>(f: F) -> Self::Output where F: FnOnce() -> u8;
    fn show(&self) -> String { format!("{}", Self::ID) }
    async fn later(&mut self);
}

impl<'a, T: Iterator<Item = u8>, const N: usize> Display for Wrapper<'a, T, N> {
    fn fmt(&self, f: &mut fmt::Formatter<'_>) -> fmt::Result {
        let x = if 1 < 2 && 3 > 2 { "a" } else { "b" };
        write!(f, "{}{}", x, '}')
    }
}

unsafe impl<T> Marker for Shape<T> where T: Send + Sync {
    const ID: u32 = 1 << 3;
    type Output = Vec<T>;
    fn make<F>(f: F) -> Self::Output where F: FnOnce() -> u8 { let _ = f; Vec::new() }
    async fn later(&mut self) {}
}

pub const fn max(a: usize, b: usize) -> usize { if a > b { a } else { b } }
pub static GLOBAL: &str = "}{";
pub type Callback<'a> = Box<dyn FnMut(&'a str) -> bool + 'a>;
pub(in crate::inner) fn generic<T, U>(t: T, u: impl Into<U>) -> impl Iterator<Item = (T, U)> where T: Clone, U: Clone { core::iter::empty() }
extern "C" { fn puts(s: *const u8) -> i32; }
#[cfg(test)]
mod tests { #[test] fn t() { assert!(true); } }
fn main() { println!("{}", r#"raw } string"#); }
"##;

#[test]
fn rich_source_parses_without_errors() {
    let (cst, errors) = parse_text(RICH_SOURCE);
    assert!(errors.is_empty());
    let found: Vec<(DeclKind, String)> = cst
        .declarations
        .iter()
        .map(|d| (d.kind, String::from_utf8(d.name.clone()).unwrap()))
        .collect();
    let expected = vec![
        (DeclKind::Struct, "Wrapper"),
        (DeclKind::Struct, "Bits"),
        (DeclKind::Enum, "Shape"),
        (DeclKind::Trait, "Marker"),
        (DeclKind::Implementation, "Wrapper"),
        (DeclKind::Implementation, "Shape"),
        (DeclKind::Function, "max"),
        (DeclKind::TypeAlias, "Callback"),
        (DeclKind::Function, "generic"),
        (DeclKind::Function, "main"),
    ];
    assert_eq!(found.len(), expected.len());
    for (got, want) in found.iter().zip(expected.iter()) {
        assert_eq!(got.0, want.0);
        assert_eq!(got.1, want.1);
    }
    let wrapper = &cst.declarations[0];
    assert_eq!(names(&wrapper.generics), vec!["a", "T", "N"]);
    assert_eq!(names(&wrapper.markers), vec!["Clone", "Debug", "Default", "PartialEq"]);
    assert_eq!(wrapper.docs, b"/// A wrapper.\n".to_vec());
    assert_eq!(uses(&wrapper.types), vec![pair("Iterator", ""), pair("u8", "Iterator")]);
    let fields: Vec<Vec<u8>> = wrapper.children.iter().map(|c| c.name.clone()).collect();
    assert_eq!(names(&fields), vec!["items", "callback", "map", "marker"]);
    assert_eq!(
        uses(&wrapper.children[2].types),
        vec![
            pair("HashMap", ""),
            pair("String", "HashMap"),
            pair("Vec", "HashMap"),
            pair("u8", "Vec"),
            pair("str", "Vec")
        ]
    );
    let shape = &cst.declarations[2];
    let variants: Vec<Vec<u8>> = shape.children.iter().map(|c| c.name.clone()).collect();
    assert_eq!(names(&variants), vec!["Circle", "Rect", "Unit", "Tagged"]);
    assert_eq!(shape.children[3].discriminant, Some(b"7".to_vec()));
    let marker = &cst.declarations[3];
    let methods: Vec<(Vec<u8>, bool)> =
        marker.children.iter().map(|c| (c.name.clone(), c.has_body)).collect();
    assert_eq!(
        methods,
        vec![(b"make".to_vec(), false), (b"show".to_vec(), true), (b"later".to_vec(), false)]
    );
    assert_eq!(cst.declarations[4].trait_name, Some(b"Display".to_vec()));
    assert_eq!(cst.declarations[5].trait_name, Some(b"Marker".to_vec()));
    assert_eq!(cst.declarations[8].visibility, Visibility::Restricted);
    assert_eq!(
        uses(&cst.declarations[8].types),
        vec![
            pair("T", ""),
            pair("Into", ""),
            pair("U", "Into"),
            pair("Iterator", ""),
            pair("T", "Iterator"),
            pair("U", "Iterator"),
            pair("Clone", ""),
            pair("Clone", "")
        ]
    );
}

#[test]
fn where_clauses_are_read_through() {
    let (cst, errors) = parse_text(
        "struct A<T, U> where T: Clone, U: Into<T> { t: T }\nenum B<T> where T: Copy, { X(T) }\nimpl<T, U> A<T, U> where T: Clone, U: Into<T>, { }",
    );
    assert!(errors.is_empty());
    assert_eq!(cst.declarations.len(), 3);
    assert_eq!(
        uses(&cst.declarations[0].types),
        vec![pair("Clone", ""), pair("Into", ""), pair("T", "Into")]
    );
    assert_eq!(cst.declarations[0].children.len(), 1);
    assert_eq!(cst.declarations[1].children.len(), 1);
}

#[test]
fn foreign_items_and_macros_are_passed_over() {
    let (cst, errors) = parse_text(
        "extern crate alloc;\nextern \"C\" { fn a(); }\nextern { fn b(); }\nthread_local! { static X: u8 = 1; }\nlazy!(y);\nextern \"C\" fn kept() {}\nunion U { a: u8 }\nfn union() {}",
    );
    assert!(errors.is_empty());
    let found: Vec<Vec<u8>> = cst.declarations.iter().map(|d| d.name.clone()).collect();
    assert_eq!(names(&found), vec!["kept", "U", "union"]);
    assert_eq!(cst.declarations[1].kind, DeclKind::Struct);
    assert_eq!(cst.declarations[2].kind, DeclKind::Function);
}
