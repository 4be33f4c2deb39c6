//! The exchange form of a graph: JSON with the nodes as `id`, `kind` and
//! `name` and the edges as `from`, `to` and `kind`, an instantiation also
//! with its `argument`.

use vstd::prelude::*;
use vstd::string::StringSliceAdditionalSpecFns;
use crate::text::{views, word, append_bytes};
use crate::syntax::DeclKind;
use crate::symbols::{EdgeKind, SymbolEntry, SymbolView};
use crate::graph::{Edge, EdgeView, GraphView, SymbolGraph};

verus! {

/// The decimal digits of a number.
pub open spec fn decimal(n: nat) -> Seq<u8>
    decreases n,
{
    if n < 10 {
        seq![(48 + n) as u8]
    } else {
        decimal(n / 10) + seq![(48 + n % 10) as u8]
    }
}

/// The digit of lower-case hexadecimal notation for a value below 16.
pub open spec fn hex_digit(v: u8) -> u8 {
    if v < 10 {
        (48 + v) as u8
    } else {
        (87 + v) as u8
    }
}

/// A byte as it stands inside a JSON string: the quote and the backslash
/// behind a backslash, a control character as `\u00` and two hexadecimal
/// digits, any other byte as it is.
pub open spec fn escaped_byte(b: u8) -> Seq<u8> {
    if b == 34 || b == 92 {
        seq![92u8, b]
    } else if b < 32 {
        seq![92u8, 117u8, 48u8, 48u8, hex_digit(b / 16), hex_digit(b % 16)]
    } else {
        seq![b]
    }
}

/// Bytes as they stand inside a JSON string.
pub open spec fn escaped(s: Seq<u8>) -> Seq<u8>
    decreases s.len(),
{
    if s.len() == 0 {
        Seq::empty()
    } else {
        escaped(s.drop_last()) + escaped_byte(s.last())
    }
}

/// The name of a kind of declaration.
pub open spec fn kind_word(kind: DeclKind) -> Seq<u8> {
    match kind {
        DeclKind::Struct => word("struct"),
        DeclKind::Enum => word("enum"),
        DeclKind::Trait => word("trait"),
        DeclKind::Implementation => word("implementation"),
        DeclKind::Function => word("function"),
        DeclKind::TypeAlias => word("type_alias"),
    }
}

/// The name of a kind of edge.
pub open spec fn edge_word(kind: EdgeKind) -> Seq<u8> {
    match kind {
        EdgeKind::Implements => word("implements"),
        EdgeKind::Contains => word("contains"),
        EdgeKind::Instantiates => word("instantiates"),
    }
}

/// The node at index `id`.
pub open spec fn node_json(id: nat, n: SymbolView) -> Seq<u8> {
    word("{\"id\":") + decimal(id) + word(",\"kind\":\"") + kind_word(n.kind) + word(
        "\",\"name\":\"",
    ) + escaped(n.name) + word("\"}")
}

/// What follows the kind of an edge: the argument of an instantiation.
pub open spec fn argument_json(e: EdgeView) -> Seq<u8> {
    if e.kind == EdgeKind::Instantiates {
        word(",\"argument\":\"") + escaped(e.label) + word("\"")
    } else {
        Seq::empty()
    }
}

/// An edge.
pub open spec fn edge_json(e: EdgeView) -> Seq<u8> {
    word("{\"from\":") + decimal(e.from as nat) + word(",\"to\":") + decimal(e.to as nat) + word(
        ",\"kind\":\"",
    ) + edge_word(e.kind) + word("\"") + argument_json(e) + word("}")
}

/// A comma before every item but the first.
pub open spec fn separator(k: int) -> Seq<u8> {
    if k > 0 {
        word(",")
    } else {
        Seq::empty()
    }
}

/// The first `k` nodes, separated by commas.
pub open spec fn nodes_json(nodes: Seq<SymbolView>, k: int) -> Seq<u8>
    decreases k,
{
    if k <= 0 || k > nodes.len() {
        Seq::empty()
    } else {
        nodes_json(nodes, k - 1) + separator(k - 1) + node_json((k - 1) as nat, nodes[k - 1])
    }
}

/// The first `k` edges, separated by commas.
pub open spec fn edges_json(edges: Seq<EdgeView>, k: int) -> Seq<u8>
    decreases k,
{
    if k <= 0 || k > edges.len() {
        Seq::empty()
    } else {
        edges_json(edges, k - 1) + separator(k - 1) + edge_json(edges[k - 1])
    }
}

/// The exchange form of a graph.
pub open spec fn graph_json(g: GraphView) -> Seq<u8> {
    word("{\"nodes\":[") + nodes_json(g.nodes, g.nodes.len() as int) + word("],\"edges\":[")
        + edges_json(g.edges, g.edges.len() as int) + word("]}")
}

fn put(out: &mut Vec<u8>, s: &str)
    ensures
        final(out)@ == old(out)@ + word(s),
{
    append_bytes(out, s.as_bytes());
}

fn put_decimal(out: &mut Vec<u8>, n: usize)
    ensures
        final(out)@ == old(out)@ + decimal(n as nat),
    decreases n,
{
    if n >= 10 {
        put_decimal(out, n / 10);
    }
    let ghost before = out@;
    let digit: u8 = 48 + (n % 10) as u8;
    out.push(digit);
    assert(out@ =~= before + seq![digit]);
    assert(old(out)@ + decimal(n as nat) =~= out@);
}

fn hex(v: u8) -> (d: u8)
    requires
        v < 16,
    ensures
        d == hex_digit(v),
{
    if v < 10 {
        48 + v
    } else {
        87 + v
    }
}

fn put_escaped(out: &mut Vec<u8>, s: &Vec<u8>)
    ensures
        final(out)@ == old(out)@ + escaped(s@),
{
    let mut i: usize = 0;
    assert(s@.subrange(0, 0) =~= Seq::<u8>::empty());
    assert(out@ =~= old(out)@ + escaped(s@.subrange(0, 0)));
    while i < s.len()
        invariant
            i <= s.len(),
            out@ == old(out)@ + escaped(s@.subrange(0, i as int)),
        decreases s.len() - i,
    {
        let b: u8 = s[i];
        let ghost before = out@;
        let ghost done = s@.subrange(0, i as int);
        let ghost next = s@.subrange(0, i + 1);
        assert(next.drop_last() =~= done);
        assert(next.last() == b);
        if b == 34 || b == 92 {
            out.push(92);
            out.push(b);
        } else if b < 32 {
            out.push(92);
            out.push(117);
            out.push(48);
            out.push(48);
            out.push(hex(b / 16));
            out.push(hex(b % 16));
        } else {
            out.push(b);
        }
        assert(out@ =~= before + escaped_byte(b));
        assert(out@ =~= old(out)@ + escaped(next));
        i += 1;
    }
    assert(s@.subrange(0, s.len() as int) =~= s@);
}

fn put_kind(out: &mut Vec<u8>, kind: DeclKind)
    ensures
        final(out)@ == old(out)@ + kind_word(kind),
{
    match kind {
        DeclKind::Struct => put(out, "struct"),
        DeclKind::Enum => put(out, "enum"),
        DeclKind::Trait => put(out, "trait"),
        DeclKind::Implementation => put(out, "implementation"),
        DeclKind::Function => put(out, "function"),
        DeclKind::TypeAlias => put(out, "type_alias"),
    }
}

fn put_edge_kind(out: &mut Vec<u8>, kind: EdgeKind)
    ensures
        final(out)@ == old(out)@ + edge_word(kind),
{
    match kind {
        EdgeKind::Implements => put(out, "implements"),
        EdgeKind::Contains => put(out, "contains"),
        EdgeKind::Instantiates => put(out, "instantiates"),
    }
}

fn put_node(out: &mut Vec<u8>, id: usize, n: &SymbolEntry)
    ensures
        final(out)@ == old(out)@ + node_json(id as nat, n@),
{
    put(out, "{\"id\":");
    put_decimal(out, id);
    put(out, ",\"kind\":\"");
    put_kind(out, n.kind);
    put(out, "\",\"name\":\"");
    put_escaped(out, &n.name);
    put(out, "\"}");
    assert(out@ =~= old(out)@ + node_json(id as nat, n@));
}

fn put_edge(out: &mut Vec<u8>, e: &Edge)
    ensures
        final(out)@ == old(out)@ + edge_json(e@),
{
    put(out, "{\"from\":");
    put_decimal(out, e.from);
    put(out, ",\"to\":");
    put_decimal(out, e.to);
    put(out, ",\"kind\":\"");
    put_edge_kind(out, e.kind);
    put(out, "\"");
    let ghost head = out@;
    if e.kind == EdgeKind::Instantiates {
        put(out, ",\"argument\":\"");
        put_escaped(out, &e.label);
        put(out, "\"");
    }
    assert(out@ =~= head + argument_json(e@));
    put(out, "}");
    assert(out@ =~= old(out)@ + edge_json(e@));
}

/// Writes a graph in its exchange form.
pub fn write_graph(graph: &SymbolGraph) -> (out: Vec<u8>)
    ensures
        out@ == graph_json(graph@),
{
    let mut out: Vec<u8> = Vec::new();
    put(&mut out, "{\"nodes\":[");
    let ghost head = out@;
    let mut i: usize = 0;
    assert(out@ =~= head + nodes_json(graph@.nodes, 0));
    while i < graph.nodes.len()
        invariant
            i <= graph.nodes.len(),
            out@ == head + nodes_json(graph@.nodes, i as int),
        decreases graph.nodes.len() - i,
    {
        let ghost before = out@;
        if i > 0 {
            put(&mut out, ",");
        }
        assert(out@ =~= before + separator(i as int));
        put_node(&mut out, i, &graph.nodes[i]);
        assert(out@ =~= head + nodes_json(graph@.nodes, i + 1));
        i += 1;
    }
    put(&mut out, "],\"edges\":[");
    let ghost middle = out@;
    let mut k: usize = 0;
    assert(out@ =~= middle + edges_json(graph@.edges, 0));
    while k < graph.edges.len()
        invariant
            k <= graph.edges.len(),
            middle == head + nodes_json(graph@.nodes, graph@.nodes.len() as int) + word(
                "],\"edges\":[",
            ),
            out@ == middle + edges_json(graph@.edges, k as int),
        decreases graph.edges.len() - k,
    {
        let ghost before = out@;
        if k > 0 {
            put(&mut out, ",");
        }
        assert(out@ =~= before + separator(k as int));
        put_edge(&mut out, &graph.edges[k]);
        assert(out@ =~= middle + edges_json(graph@.edges, k + 1));
        k += 1;
    }
    put(&mut out, "]}");
    assert(out@ =~= graph_json(graph@));
    out
}

} // verus!
