use symgraph::graph::{build, DanglingEdgeError, Edge};
use symgraph::lexer::tokenize;
use symgraph::parser::parse;
use symgraph::resolver::resolve;
use symgraph::symbols::{
    find, EdgeKind, ImplementationEdge, ResolutionError, ResolutionErrorKind, SymbolEntry,
    SymbolTable, TypeLink,
};
use symgraph::syntax::{DeclKind, Visibility};

fn resolve_text(text: &str) -> (SymbolTable, Vec<ResolutionError>) {
    let (tokens, lex_errors) = tokenize(text);
    assert!(lex_errors.is_empty());
    let (cst, parse_errors) = parse(&tokens);
    assert!(parse_errors.is_empty());
    resolve(&cst)
}

fn entry_names(table: &SymbolTable) -> Vec<String> {
    table.entries.iter().map(|e| String::from_utf8(e.name.clone()).unwrap()).collect()
}

fn edge(from: usize, to: usize, kind: EdgeKind, label: &str) -> Edge {
    Edge { from, to, kind, label: label.as_bytes().to_vec() }
}

fn entry(name: &str, kind: DeclKind, declaration: usize) -> SymbolEntry {
    SymbolEntry {
        name: name.as_bytes().to_vec(),
        kind,
        declaration,
        visibility: Visibility::Private,
    }
}

#[test]
fn trait_implementation_gives_one_implements_edge() {
    let text = "trait Authenticator { fn authenticate(...); }\nstruct AdminUser { level: u8 }\nimpl Authenticator for AdminUser { fn authenticate(...) {...} }";
    let (table, errors) = resolve_text(text);
    assert!(errors.is_empty());
    assert_eq!(
        table.implementations,
        vec![ImplementationEdge {
            implementor: b"AdminUser".to_vec(),
            trait_name: b"Authenticator".to_vec(),
            declaration: 2,
            valid: true,
        }]
    );
    let graph = build(&table).unwrap();
    assert_eq!(entry_names(&table), vec!["Authenticator", "AdminUser"]);
    assert_eq!(graph.edges, vec![edge(1, 0, EdgeKind::Implements, "")]);
    assert_eq!(graph.nodes, table.entries);
}

#[test]
fn implementation_for_an_undeclared_type_gives_no_edge() {
    let text = "trait Authenticator { fn authenticate(...); }\nimpl Authenticator for AdminUser { fn authenticate(...) {...} }";
    let (table, errors) = resolve_text(text);
    assert_eq!(errors.len(), 1);
    assert_eq!(errors[0].kind, ResolutionErrorKind::UnresolvedReference);
    assert_eq!(errors[0].name, b"AdminUser".to_vec());
    assert!(table.implementations.is_empty());
    assert!(build(&table).unwrap().edges.is_empty());
}

#[test]
fn repeated_implementations_give_one_edge() {
    let text = "trait T {}\nstruct S;\nimpl T for S {}\nimpl T for S {}";
    let (table, errors) = resolve_text(text);
    assert!(errors.is_empty());
    assert_eq!(table.implementations.len(), 2);
    let graph = build(&table).unwrap();
    assert_eq!(graph.edges, vec![edge(1, 0, EdgeKind::Implements, "")]);
}

#[test]
fn duplicate_struct_is_reported_once_and_the_first_stays() {
    let text = "pub struct User { a: u8 }\nstruct Other;\nstruct User { b: u8, c: u8 }";
    let (table, errors) = resolve_text(text);
    assert_eq!(
        errors,
        vec![ResolutionError {
            kind: ResolutionErrorKind::DuplicateSymbol,
            name: b"User".to_vec(),
            declaration: 2,
            offset: 40,
            line: 2,
            column: 0,
        }]
    );
    assert_eq!(entry_names(&table), vec!["User", "Other"]);
    assert_eq!(table.entries[0].declaration, 0);
    assert_eq!(table.entries[0].visibility, Visibility::Public);
    assert_eq!(table.get(b"User").unwrap().declaration, 0);
}

#[test]
fn duplicates_across_kinds_share_one_scope() {
    let (table, errors) = resolve_text("struct A;\nfn A() {}\ntrait A {}\nenum B {}\ntype B = A;");
    assert_eq!(errors.len(), 3);
    for e in &errors {
        assert_eq!(e.kind, ResolutionErrorKind::DuplicateSymbol);
    }
    assert_eq!(entry_names(&table), vec!["A", "B"]);
    assert_eq!(table.entries[0].kind, DeclKind::Struct);
    assert_eq!(table.entries[1].kind, DeclKind::Enum);
}

#[test]
fn unknown_trait_is_reported_and_gives_no_edge() {
    let text = "struct User;\nimpl UnknownTrait for User { fn f(&self) {} }";
    let (table, errors) = resolve_text(text);
    assert_eq!(
        errors,
        vec![ResolutionError {
            kind: ResolutionErrorKind::UnresolvedReference,
            name: b"UnknownTrait".to_vec(),
            declaration: 1,
            offset: 13,
            line: 1,
            column: 0,
        }]
    );
    assert!(table.implementations.is_empty());
    assert_eq!(entry_names(&table), vec!["User"]);
    let graph = build(&table).unwrap();
    assert!(graph.edges.iter().all(|e| e.kind != EdgeKind::Implements));
    assert!(graph.edges.is_empty());
}

#[test]
fn unknown_target_and_trait_are_both_reported() {
    let (table, errors) = resolve_text("impl Missing for Absent {}\nimpl Gone {}\nstruct Here;");
    let names: Vec<&[u8]> = errors.iter().map(|e| &e.name[..]).collect();
    assert_eq!(names, vec![&b"Missing"[..], &b"Absent"[..], &b"Gone"[..]]);
    assert!(errors.iter().all(|e| e.kind == ResolutionErrorKind::UnresolvedReference));
    assert_eq!(entry_names(&table), vec!["Here"]);
}

#[test]
fn a_struct_is_no_trait() {
    let (table, errors) = resolve_text("struct A;\nstruct B;\nimpl A for B {}");
    assert_eq!(errors.len(), 1);
    assert_eq!(errors[0].name, b"A".to_vec());
    assert!(table.implementations.is_empty());
}

#[test]
fn declarations_may_follow_their_uses() {
    let (table, errors) = resolve_text("impl T for S {}\nstruct S;\ntrait T {}");
    assert!(errors.is_empty());
    assert_eq!(table.implementations.len(), 1);
    assert_eq!(build(&table).unwrap().edges, vec![edge(0, 1, EdgeKind::Implements, "")]);
}

#[test]
fn implementation_must_declare_the_required_methods() {
    let text = "trait T { fn must(&self); fn may(&self) {} }\nstruct Good;\nstruct Bad;\nimpl T for Good { fn must(&self) {} }\nimpl T for Bad { fn may(&self) {} }";
    let (table, errors) = resolve_text(text);
    assert!(errors.is_empty());
    assert_eq!(table.implementations.len(), 2);
    assert!(table.implementations[0].valid);
    assert!(!table.implementations[1].valid);
    let graph = build(&table).unwrap();
    assert_eq!(graph.edges, vec![edge(1, 0, EdgeKind::Implements, "")]);
}

#[test]
fn generic_parameters_stay_in_their_declaration() {
    let text = "struct T;\nstruct Holder<T> { value: T }\nstruct Plain { value: T }\ntrait Show {}\nimpl<T> Show for T {}\nimpl<U> Show for U {}";
    let (table, errors) = resolve_text(text);
    assert!(errors.is_empty());
    assert_eq!(table.implementations.len(), 0);
    assert_eq!(
        table.links,
        vec![TypeLink {
            kind: EdgeKind::Contains,
            owner: b"Plain".to_vec(),
            target: b"T".to_vec(),
            argument: Vec::new(),
            placeholder: false,
        }]
    );
}

#[test]
fn fields_and_variants_give_contains_edges() {
    let text = "struct User;\nenum Role { Admin(User), Guest }\nstruct Account { owner: User, role: Role, backup: User, name: String, all: Vec<User> }\nfn f(u: User) {}";
    let (table, errors) = resolve_text(text);
    assert!(errors.is_empty());
    let graph = build(&table).unwrap();
    assert_eq!(entry_names(&table), vec!["User", "Role", "Account", "f"]);
    assert_eq!(
        graph.edges,
        vec![
            edge(1, 0, EdgeKind::Contains, ""),
            edge(2, 0, EdgeKind::Contains, ""),
            edge(2, 1, EdgeKind::Contains, ""),
        ]
    );
}

#[test]
fn argument_lists_give_instantiates_edges() {
    let text = "struct Manager<T> { items: Vec<T> }\nstruct User;\nstruct App<S> { users: Manager<User>, other: Manager<S> }\nimpl<S> App<S> { fn get(&self) -> Manager<Manager<S>> { make() } }";
    let (table, errors) = resolve_text(text);
    assert!(errors.is_empty());
    assert_eq!(table.links.len(), 6);
    assert_eq!(table.links[1].kind, EdgeKind::Instantiates);
    assert_eq!(table.links[1].argument, b"User".to_vec());
    assert!(!table.links[1].placeholder);
    assert_eq!(table.links[3].argument, b"S".to_vec());
    assert!(table.links[3].placeholder);
    let graph = build(&table).unwrap();
    assert_eq!(
        graph.edges,
        vec![
            edge(2, 0, EdgeKind::Contains, ""),
            edge(2, 0, EdgeKind::Instantiates, "User"),
            edge(2, 0, EdgeKind::Instantiates, "S"),
            edge(2, 0, EdgeKind::Instantiates, "Manager"),
        ]
    );
}

#[test]
fn distinct_names_fill_the_table() {
    let text = "struct A;\nenum B {}\ntrait C {}\nfn d() {}\ntype E = A;\nimpl C for A {}\nimpl A {}";
    let (table, errors) = resolve_text(text);
    assert!(errors.is_empty());
    assert_eq!(table.entries.len(), 5);
    for (i, e) in table.entries.iter().enumerate() {
        assert_eq!(e.declaration, i);
    }
}

#[test]
fn resolved_tables_always_build() {
    let texts = [
        "",
        "struct A;",
        "impl X for Y {}",
        "struct A { a: A }\nstruct A { b: B }\nimpl A for A {}",
        "trait T { fn f(); }\nstruct S<T> { t: T, s: S<S<T>> }\nimpl T for S {}\nimpl<Q> T for Q {}",
    ];
    for text in texts {
        let (table, _) = resolve_text(text);
        assert!(build(&table).is_ok());
    }
}

#[test]
fn dangling_link_fails_the_build() {
    let table = SymbolTable {
        entries: vec![entry("A", DeclKind::Struct, 0)],
        implementations: vec![],
        links: vec![
            TypeLink {
                kind: EdgeKind::Contains,
                owner: b"A".to_vec(),
                target: b"A".to_vec(),
                argument: Vec::new(),
                placeholder: false,
            },
            TypeLink {
                kind: EdgeKind::Instantiates,
                owner: b"A".to_vec(),
                target: b"Ghost".to_vec(),
                argument: b"X".to_vec(),
                placeholder: false,
            },
        ],
    };
    assert_eq!(
        build(&table),
        Err(DanglingEdgeError { kind: EdgeKind::Instantiates, name: b"Ghost".to_vec() })
    );
}

#[test]
fn dangling_implementation_fails_the_build_unless_flagged_invalid() {
    let mut table = SymbolTable {
        entries: vec![entry("T", DeclKind::Trait, 0)],
        implementations: vec![ImplementationEdge {
            implementor: b"Nobody".to_vec(),
            trait_name: b"T".to_vec(),
            declaration: 1,
            valid: true,
        }],
        links: vec![],
    };
    assert_eq!(
        build(&table),
        Err(DanglingEdgeError { kind: EdgeKind::Implements, name: b"Nobody".to_vec() })
    );
    table.implementations[0].valid = false;
    let graph = build(&table).unwrap();
    assert!(graph.edges.is_empty());
    assert_eq!(graph.nodes.len(), 1);
}

#[test]
fn lookup_finds_the_first_entry_of_a_name() {
    let entries = vec![
        entry("A", DeclKind::Struct, 0),
        entry("B", DeclKind::Enum, 1),
        entry("A", DeclKind::Trait, 2),
    ];
    assert_eq!(find(&entries, b"A"), Some(0));
    assert_eq!(find(&entries, b"B"), Some(1));
    assert_eq!(find(&entries, b"C"), None);
}
