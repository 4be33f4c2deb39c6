use symgraph::analysis::{analyze, Diagnostic, DiagnosticCode, Severity};
use symgraph::graph::Edge;
use symgraph::symbols::{EdgeKind, ResolutionErrorKind};
use symgraph::syntax::{DeclKind, ParseErrorKind};
use symgraph::token::LexErrorKind;

const SESSION_SOURCE: &str = r#"// Session handling with traits and generics
use std::collections::HashMap;
use std::sync::{Arc, RwLock};

/// Authenticator trait
pub trait Authenticator {
    fn authenticate(&self, username: &str, password: &str) -> bool;
    fn logout(&self);
}

/// Base User struct
#[derive(Debug, Clone)]
pub struct User {
    pub username: String,
    pub id: u32,
}

impl User {
    pub fn new(username: String, id: u32) -> Self {
        User { username, id }
    }
}

/// AdminUser with permissions
#[derive(Debug, Clone)]
pub struct AdminUser {
    user: User,
    permissions: Vec<String>,
}

impl AdminUser {
    pub fn new(username: String, id: u32) -> Self {
        AdminUser {
            user: User::new(username, id),
            permissions: Vec::new(),
        }
    }

    pub fn add_permission(&mut self, permission: String) {
        self.permissions.push(permission);
    }

    fn validate_password(&self, password: &str) -> bool {
        password.len() >= 8
    }
}

impl Authenticator for AdminUser {
    fn authenticate(&self, username: &str, password: &str) -> bool {
        if username.is_empty() || password.is_empty() {
            return false;
        }
        self.user.username == username && self.validate_password(password)
    }

    fn logout(&self) {
        println!("Admin logged out");
    }
}

/// Generic SessionManager
pub struct SessionManager<T> {
    sessions: Arc<RwLock<HashMap<String, T>>>,
}

impl<T: Clone> SessionManager<T> {
    pub fn new() -> Self {
        SessionManager {
            sessions: Arc::new(RwLock::new(HashMap::new())),
        }
    }

    pub fn create_session(&self, session_id: String, user: T) {
        let mut sessions = self.sessions.write().unwrap();
        sessions.insert(session_id, user);
    }

    pub fn get_session(&self, session_id: &str) -> Option<T> {
        let sessions = self.sessions.read().unwrap();
        sessions.get(session_id).cloned()
    }
}

/// Status code enum
#[derive(Debug, Clone, Copy, PartialEq, Eq)]
pub enum StatusCode {
    Success = 200,
    Unauthorized = 401,
    Forbidden = 403,
    NotFound = 404,
}

impl StatusCode {
    pub fn message(&self) -> &'static str {
        match self {
            StatusCode::Success => "OK",
            StatusCode::Unauthorized => "Unauthorized",
            StatusCode::Forbidden => "Forbidden",
            StatusCode::NotFound => "Not Found",
        }
    }
}

/// Result type alias
pub type AuthResult<T> = Result<T, StatusCode>;

/// Complex function with error handling
pub fn authenticate_and_create_session<T: Authenticator + Clone>(
    user: &T,
    username: &str,
    password: &str,
    manager: &SessionManager<T>,
) -> AuthResult<String> {
    if user.authenticate(username, password) {
        let session_id = format!("session_{}", uuid::Uuid::new_v4());
        manager.create_session(session_id.clone(), user.clone());
        Ok(session_id)
    } else {
        Err(StatusCode::Unauthorized)
    }
}
"#;

const POINT_SOURCE: &str = "struct Point {\n    x: i32,\n    y: i32,\n}\n\nimpl Point {\n    fn new(x: i32, y: i32) -> Point {\n        Point { x, y }\n    }\n    \n    fn distance(&self) -> f64 {\n        ((self.x.pow(2) + self.y.pow(2)) as f64).sqrt()\n    }\n}\n\nenum Direction {\n    North,\n    South,\n    East,\n    West,\n}\n\nfn main() {\n    let p = Point::new(10, 20);\n    println!(\"Distance: {}\", p.distance());\n}\n";

fn edge(from: usize, to: usize, kind: EdgeKind, label: &str) -> Edge {
    Edge { from, to, kind, label: label.as_bytes().to_vec() }
}

fn names(list: &[Vec<u8>]) -> Vec<String> {
    list.iter().map(|n| String::from_utf8(n.clone()).unwrap()).collect()
}

#[test]
fn session_source_is_analysed_without_diagnostics() {
    let a = analyze(SESSION_SOURCE);
    assert!(a.diagnostics.is_empty());
    let decls: Vec<(DeclKind, String)> = a
        .cst
        .declarations
        .iter()
        .map(|d| (d.kind, String::from_utf8(d.name.clone()).unwrap()))
        .collect();
    let expected = vec![
        (DeclKind::Trait, "Authenticator"),
        (DeclKind::Struct, "User"),
        (DeclKind::Implementation, "User"),
        (DeclKind::Struct, "AdminUser"),
        (DeclKind::Implementation, "AdminUser"),
        (DeclKind::Implementation, "AdminUser"),
        (DeclKind::Struct, "SessionManager"),
        (DeclKind::Implementation, "SessionManager"),
        (DeclKind::Enum, "StatusCode"),
        (DeclKind::Implementation, "StatusCode"),
        (DeclKind::TypeAlias, "AuthResult"),
        (DeclKind::Function, "authenticate_and_create_session"),
    ];
    assert_eq!(decls.len(), expected.len());
    for (got, want) in decls.iter().zip(expected.iter()) {
        assert_eq!(got.0, want.0);
        assert_eq!(got.1, want.1);
    }
    let status = &a.cst.declarations[8];
    assert_eq!(names(&status.markers), vec!["Debug", "Clone", "Copy", "PartialEq", "Eq"]);
    let discriminants: Vec<Option<Vec<u8>>> =
        status.children.iter().map(|c| c.discriminant.clone()).collect();
    assert_eq!(
        discriminants,
        vec![
            Some(b"200".to_vec()),
            Some(b"401".to_vec()),
            Some(b"403".to_vec()),
            Some(b"404".to_vec())
        ]
    );
    assert_eq!(a.cst.declarations[0].docs, b"/// Authenticator trait\n".to_vec());
    assert_eq!(a.cst.declarations[5].trait_name, Some(b"Authenticator".to_vec()));
    assert_eq!(names(&a.cst.declarations[7].generics), vec!["T"]);
}

#[test]
fn session_source_graph() {
    let a = analyze(SESSION_SOURCE);
    let nodes: Vec<Vec<u8>> = a.graph.nodes.iter().map(|n| n.name.clone()).collect();
    assert_eq!(
        names(&nodes),
        vec![
            "Authenticator",
            "User",
            "AdminUser",
            "SessionManager",
            "StatusCode",
            "AuthResult",
            "authenticate_and_create_session"
        ]
    );
    assert_eq!(
        a.graph.edges,
        vec![
            edge(2, 0, EdgeKind::Implements, ""),
            edge(2, 1, EdgeKind::Contains, ""),
            edge(6, 3, EdgeKind::Instantiates, "T"),
            edge(6, 5, EdgeKind::Instantiates, "String"),
        ]
    );
    assert_eq!(a.table.implementations.len(), 1);
    assert!(a.table.implementations[0].valid);
}

#[test]
fn point_source_is_analysed() {
    let a = analyze(POINT_SOURCE);
    assert!(a.diagnostics.is_empty());
    let nodes: Vec<Vec<u8>> = a.graph.nodes.iter().map(|n| n.name.clone()).collect();
    assert_eq!(names(&nodes), vec!["Point", "Direction", "main"]);
    assert!(a.graph.edges.is_empty());
    assert_eq!(a.cst.declarations[0].children.len(), 2);
    assert_eq!(a.cst.declarations[1].children.len(), 2);
    assert_eq!(a.cst.declarations[2].children.len(), 4);
}

#[test]
fn diagnostics_come_stage_by_stage() {
    let text = "struct A;\nstruct A;\nstruct { }\nimpl Missing for A {}\ntrait T { fn f(); }\nimpl T for A {}\nlet s = \"open";
    let a = analyze(text);
    assert_eq!(
        a.diagnostics,
        vec![
            Diagnostic {
                severity: Severity::Error,
                code: DiagnosticCode::Lex(LexErrorKind::UnterminatedString),
                offset: 97,
                line: 6,
                column: 8,
            },
            Diagnostic {
                severity: Severity::Error,
                code: DiagnosticCode::Parse(ParseErrorKind::ExpectedName),
                offset: 27,
                line: 2,
                column: 7,
            },
            Diagnostic {
                severity: Severity::Error,
                code: DiagnosticCode::Parse(ParseErrorKind::ExpectedDeclaration),
                offset: 89,
                line: 6,
                column: 0,
            },
            Diagnostic {
                severity: Severity::Error,
                code: DiagnosticCode::Resolution(ResolutionErrorKind::DuplicateSymbol),
                offset: 10,
                line: 1,
                column: 0,
            },
            Diagnostic {
                severity: Severity::Error,
                code: DiagnosticCode::Resolution(ResolutionErrorKind::UnresolvedReference),
                offset: 31,
                line: 3,
                column: 0,
            },
            Diagnostic {
                severity: Severity::Warning,
                code: DiagnosticCode::IncompleteImplementation,
                offset: 73,
                line: 5,
                column: 0,
            },
        ]
    );
    assert_eq!(a.table.entries.len(), 2);
    assert!(a.graph.edges.is_empty());
}

#[test]
fn every_code_has_a_message() {
    let codes = [
        (DiagnosticCode::Lex(LexErrorKind::UnterminatedString), "unterminated string literal"),
        (DiagnosticCode::Lex(LexErrorKind::UnterminatedComment), "unterminated block comment"),
        (DiagnosticCode::Parse(ParseErrorKind::ExpectedDeclaration), "expected a declaration"),
        (DiagnosticCode::Parse(ParseErrorKind::ExpectedName), "expected a name"),
        (DiagnosticCode::Parse(ParseErrorKind::ExpectedBody), "expected a body"),
        (DiagnosticCode::Parse(ParseErrorKind::ExpectedField), "expected a field"),
        (DiagnosticCode::Parse(ParseErrorKind::ExpectedVariant), "expected a variant"),
        (DiagnosticCode::Parse(ParseErrorKind::ExpectedMember), "expected a method"),
        (
            DiagnosticCode::Parse(ParseErrorKind::ExpectedDiscriminant),
            "expected a literal discriminant",
        ),
        (DiagnosticCode::Parse(ParseErrorKind::UnclosedDelimiter), "unclosed delimiter"),
        (DiagnosticCode::Parse(ParseErrorKind::UnexpectedToken), "unexpected token"),
        (DiagnosticCode::Resolution(ResolutionErrorKind::DuplicateSymbol), "duplicate symbol"),
        (
            DiagnosticCode::Resolution(ResolutionErrorKind::UnresolvedReference),
            "unresolved reference",
        ),
        (DiagnosticCode::IncompleteImplementation, "implementation lacks a required method"),
    ];
    for (code, text) in codes {
        let d = Diagnostic { severity: Severity::Error, code, offset: 0, line: 0, column: 0 };
        assert_eq!(d.message(), text);
    }
}

#[test]
fn repeated_analyses_agree() {
    assert_eq!(analyze(SESSION_SOURCE), analyze(SESSION_SOURCE));
    let broken = "struct A { x: \nimpl B for A {}";
    assert_eq!(analyze(broken), analyze(broken));
}
