use symgraph::analysis::analyze;
use symgraph::exchange::write_graph;
use symgraph::graph::{Edge, SymbolGraph};
use symgraph::symbols::{EdgeKind, SymbolEntry};
use symgraph::syntax::{DeclKind, Visibility};

fn node(name: &[u8], kind: DeclKind) -> SymbolEntry {
    SymbolEntry { name: name.to_vec(), kind, declaration: 0, visibility: Visibility::Private }
}

fn json(graph: &SymbolGraph) -> String {
    String::from_utf8(write_graph(graph)).unwrap()
}

#[test]
fn empty_graph_in_exchange_form() {
    let graph = SymbolGraph { nodes: vec![], edges: vec![] };
    assert_eq!(json(&graph), "{\"nodes\":[],\"edges\":[]}");
}

#[test]
fn analysed_graph_in_exchange_form() {
    let text = "trait Named {}\nstruct Box<T> { value: T }\nstruct Pet { home: Box<Pet> }\nimpl Named for Pet {}\nenum E { A }\nfn f() {}\ntype X = Pet;";
    let graph = analyze(text).graph;
    assert_eq!(
        json(&graph),
        [
            "{\"nodes\":[",
            "{\"id\":0,\"kind\":\"trait\",\"name\":\"Named\"},",
            "{\"id\":1,\"kind\":\"struct\",\"name\":\"Box\"},",
            "{\"id\":2,\"kind\":\"struct\",\"name\":\"Pet\"},",
            "{\"id\":3,\"kind\":\"enum\",\"name\":\"E\"},",
            "{\"id\":4,\"kind\":\"function\",\"name\":\"f\"},",
            "{\"id\":5,\"kind\":\"type_alias\",\"name\":\"X\"}",
            "],\"edges\":[",
            "{\"from\":2,\"to\":0,\"kind\":\"implements\"},",
            "{\"from\":2,\"to\":1,\"kind\":\"contains\"},",
            "{\"from\":2,\"to\":1,\"kind\":\"instantiates\",\"argument\":\"Pet\"}",
            "]}",
        ]
        .concat()
    );
}

#[test]
fn names_are_escaped() {
    let graph = SymbolGraph {
        nodes: vec![node(b"a\"b\\c\n\x1f d\xc3\xa9", DeclKind::Implementation)],
        edges: vec![Edge {
            from: 0,
            to: 0,
            kind: EdgeKind::Instantiates,
            label: b"\t\"".to_vec(),
        }],
    };
    assert_eq!(
        json(&graph),
        [
            "{\"nodes\":[{\"id\":0,\"kind\":\"implementation\",",
            "\"name\":\"a\\\"b\\\\c\\u000a\\u001f d\u{e9}\"}],",
            "\"edges\":[{\"from\":0,\"to\":0,\"kind\":\"instantiates\",",
            "\"argument\":\"\\u0009\\\"\"}]}",
        ]
        .concat()
    );
}

#[test]
fn indices_are_written_in_decimal() {
    let mut nodes = Vec::new();
    for i in 0..12 {
        nodes.push(node(format!("N{}", i).as_bytes(), DeclKind::Struct));
    }
    let graph = SymbolGraph {
        nodes,
        edges: vec![Edge { from: 10, to: 11, kind: EdgeKind::Contains, label: vec![] }],
    };
    let text = json(&graph);
    assert!(text.contains("{\"id\":9,\"kind\":\"struct\",\"name\":\"N9\"},{\"id\":10,"));
    assert!(text.contains("{\"id\":11,\"kind\":\"struct\",\"name\":\"N11\"}],"));
    assert!(text.ends_with("\"edges\":[{\"from\":10,\"to\":11,\"kind\":\"contains\"}]}"));
}

#[test]
fn large_indices_are_written_in_decimal() {
    let graph = SymbolGraph {
        nodes: vec![],
        edges: vec![Edge { from: 1234567890, to: 100, kind: EdgeKind::Implements, label: vec![] }],
    };
    assert_eq!(
        json(&graph),
        "{\"nodes\":[],\"edges\":[{\"from\":1234567890,\"to\":100,\"kind\":\"implements\"}]}"
    );
}
