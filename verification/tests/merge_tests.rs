use symgraph::analysis::analyze;
use symgraph::graph::{Edge, SymbolGraph};
use symgraph::merge::{merge, MergeError};
use symgraph::symbols::{EdgeKind, SymbolEntry};
use symgraph::syntax::{DeclKind, Visibility};

fn edge(from: usize, to: usize, kind: EdgeKind, label: &str) -> Edge {
    Edge { from, to, kind, label: label.as_bytes().to_vec() }
}

fn node(name: &str) -> SymbolEntry {
    SymbolEntry {
        name: name.as_bytes().to_vec(),
        kind: DeclKind::Struct,
        declaration: 0,
        visibility: Visibility::Private,
    }
}

fn node_names(graph: &SymbolGraph) -> Vec<String> {
    graph.nodes.iter().map(|n| String::from_utf8(n.name.clone()).unwrap()).collect()
}

#[test]
fn merge_appends_nodes_and_moves_edges() {
    let mut whole = analyze("struct User;\nstruct Account { owner: User }").graph;
    let part = analyze("trait Named {}\nstruct Pet;\nimpl Named for Pet {}").graph;
    assert_eq!(whole.edges, vec![edge(1, 0, EdgeKind::Contains, "")]);
    assert_eq!(part.edges, vec![edge(1, 0, EdgeKind::Implements, "")]);
    assert_eq!(merge(&mut whole, &part), Ok(()));
    assert_eq!(node_names(&whole), vec!["User", "Account", "Named", "Pet"]);
    assert_eq!(
        whole.edges,
        vec![edge(1, 0, EdgeKind::Contains, ""), edge(3, 2, EdgeKind::Implements, "")]
    );
}

#[test]
fn merge_into_an_empty_graph_copies_the_part() {
    let mut whole = SymbolGraph { nodes: vec![], edges: vec![] };
    let part = analyze("struct A<T> { t: T }\nstruct B { a: A<B> }").graph;
    assert_eq!(merge(&mut whole, &part), Ok(()));
    assert_eq!(whole, part);
}

#[test]
fn merge_turns_down_a_duplicate_symbol() {
    let mut whole = analyze("struct User;\nstruct Account { owner: User }").graph;
    let before = whole.clone();
    let part = analyze("struct Pet;\nenum Account { Open }").graph;
    assert_eq!(merge(&mut whole, &part), Err(MergeError::DuplicateSymbol(b"Account".to_vec())));
    assert_eq!(whole, before);
}

#[test]
fn merge_turns_down_a_name_that_the_part_has_twice() {
    let mut whole = SymbolGraph { nodes: vec![node("A")], edges: vec![] };
    let part = SymbolGraph { nodes: vec![node("B"), node("C"), node("B")], edges: vec![] };
    assert_eq!(merge(&mut whole, &part), Err(MergeError::DuplicateSymbol(b"B".to_vec())));
    assert_eq!(whole.nodes.len(), 1);
}

#[test]
fn merge_turns_down_a_dangling_edge() {
    let mut whole = SymbolGraph { nodes: vec![node("A")], edges: vec![] };
    let part = SymbolGraph {
        nodes: vec![node("B"), node("C")],
        edges: vec![edge(0, 1, EdgeKind::Contains, ""), edge(1, 2, EdgeKind::Contains, "")],
    };
    assert_eq!(merge(&mut whole, &part), Err(MergeError::DanglingEdge(1)));
    assert_eq!(whole.nodes.len(), 1);
    assert!(whole.edges.is_empty());
}

#[test]
fn merges_apply_one_after_another() {
    let mut whole = SymbolGraph { nodes: vec![], edges: vec![] };
    let files = ["struct A;", "struct B { a: B }", "struct A { b: u8 }", "struct C;"];
    let mut refused = Vec::new();
    for (i, text) in files.iter().enumerate() {
        if merge(&mut whole, &analyze(text).graph).is_err() {
            refused.push(i);
        }
    }
    assert_eq!(refused, vec![2]);
    assert_eq!(node_names(&whole), vec!["A", "B", "C"]);
    assert_eq!(whole.edges, vec![edge(1, 1, EdgeKind::Contains, "")]);
}
