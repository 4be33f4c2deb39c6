//! The graph builder: a symbol table to a graph of symbol relationships.

use vstd::prelude::*;
use crate::text::{views, same_bytes, copy_bytes, group_views};
use crate::symbols::{
    find, known, lookup, EdgeKind, SymbolEntry, SymbolTable, SymbolView,
    TableView,
};

verus! {

broadcast use group_views;

/// A typed edge between two nodes, given by their indices. The label of an
/// `Instantiates` edge names the argument; other edges have an empty label.
#[derive(Clone, Debug, PartialEq, Eq)]
pub struct Edge {
    pub from: usize,
    pub to: usize,
    pub kind: EdgeKind,
    pub label: Vec<u8>,
}

/// The mathematical model of an [`Edge`].
pub struct EdgeView {
    pub from: usize,
    pub to: usize,
    pub kind: EdgeKind,
    pub label: Seq<u8>,
}

impl View for Edge {
    type V = EdgeView;

    open spec fn view(&self) -> EdgeView {
        EdgeView { from: self.from, to: self.to, kind: self.kind, label: self.label@ }
    }
}

/// The symbols of a scope and the typed edges between them.
#[derive(Clone, Debug, PartialEq, Eq)]
pub struct SymbolGraph {
    pub nodes: Vec<SymbolEntry>,
    pub edges: Vec<Edge>,
}

/// The mathematical model of a [`SymbolGraph`].
pub struct GraphView {
    pub nodes: Seq<SymbolView>,
    pub edges: Seq<EdgeView>,
}

impl View for SymbolGraph {
    type V = GraphView;

    open spec fn view(&self) -> GraphView {
        GraphView { nodes: views(self.nodes@), edges: views(self.edges@) }
    }
}

/// Every edge joins two of the nodes, and no edge occurs twice.
pub open spec fn edges_well_formed(nodes: Seq<SymbolView>, edges: Seq<EdgeView>) -> bool {
    &&& forall|i: int|
        0 <= i < edges.len() ==> (#[trigger] edges[i]).from < nodes.len() && edges[i].to
            < nodes.len()
    &&& forall|i: int, j: int|
        0 <= i < j < edges.len() ==> #[trigger] edges[i] != #[trigger] edges[j]
}

impl GraphView {
    /// Every edge joins two nodes of the graph, and no edge occurs twice.
    pub open spec fn well_formed(self) -> bool {
        edges_well_formed(self.nodes, self.edges)
    }
}

/// An edge that cannot be built: `name` is the end that the table lacks.
#[derive(Clone, Debug, PartialEq, Eq)]
pub struct DanglingEdgeError {
    pub kind: EdgeKind,
    pub name: Vec<u8>,
}

/// The mathematical model of a [`DanglingEdgeError`].
pub struct DanglingView {
    pub kind: EdgeKind,
    pub name: Seq<u8>,
}

impl View for DanglingEdgeError {
    type V = DanglingView;

    open spec fn view(&self) -> DanglingView {
        DanglingView { kind: self.kind, name: self.name@ }
    }
}

/// The edges with `e`, which is added unless it is there.
pub open spec fn add_edge(edges: Seq<EdgeView>, e: EdgeView) -> Seq<EdgeView> {
    if edges.contains(e) {
        edges
    } else {
        edges.push(e)
    }
}

/// The edge between the entries of two names, or the name that is not
/// registered, the source being looked up first.
pub open spec fn edge_between(
    entries: Seq<SymbolView>,
    kind: EdgeKind,
    from: Seq<u8>,
    to: Seq<u8>,
    label: Seq<u8>,
) -> Result<EdgeView, DanglingView> {
    match lookup(entries, from) {
        None => Err(DanglingView { kind, name: from }),
        Some(a) => match lookup(entries, to) {
            None => Err(DanglingView { kind, name: to }),
            Some(b) => Ok(EdgeView { from: a as usize, to: b as usize, kind, label }),
        },
    }
}

/// The edges of the valid implementations from the `i`-th on, after those
/// gathered so far: one from the implementing type to the trait.
pub open spec fn implement_edges(t: TableView, i: int, acc: Seq<EdgeView>) -> Result<
    Seq<EdgeView>,
    DanglingView,
>
    decreases t.implementations.len() - i,
{
    if i < 0 || i >= t.implementations.len() {
        Ok(acc)
    } else if !t.implementations[i].valid {
        implement_edges(t, i + 1, acc)
    } else {
        match edge_between(
            t.entries,
            EdgeKind::Implements,
            t.implementations[i].implementor,
            t.implementations[i].trait_name,
            Seq::empty(),
        ) {
            Ok(e) => implement_edges(t, i + 1, add_edge(acc, e)),
            Err(e) => Err(e),
        }
    }
}

/// The edges of the links from the `i`-th on, after those gathered so far:
/// one from the owner to the type it uses, labelled with the argument.
pub open spec fn link_edges(t: TableView, i: int, acc: Seq<EdgeView>) -> Result<
    Seq<EdgeView>,
    DanglingView,
>
    decreases t.links.len() - i,
{
    if i < 0 || i >= t.links.len() {
        Ok(acc)
    } else {
        match edge_between(
            t.entries,
            t.links[i].kind,
            t.links[i].owner,
            t.links[i].target,
            t.links[i].argument,
        ) {
            Ok(e) => link_edges(t, i + 1, add_edge(acc, e)),
            Err(e) => Err(e),
        }
    }
}

/// The graph of a table: its entries as nodes, the edges of its valid
/// implementations, then those of its links. The first edge that has an end
/// outside the table fails the whole graph.
pub open spec fn built(t: TableView) -> Result<GraphView, DanglingView> {
    match implement_edges(t, 0, Seq::empty()) {
        Ok(first) => match link_edges(t, 0, first) {
            Ok(all) => Ok(GraphView { nodes: t.entries, edges: all }),
            Err(e) => Err(e),
        },
        Err(e) => Err(e),
    }
}

/// Whether every name that a valid implementation or a link of the table
/// refers to is registered in the table.
pub open spec fn consistent(t: TableView) -> bool {
    &&& forall|i: int|
        0 <= i < t.implementations.len() && (#[trigger] t.implementations[i]).valid ==> known(
            t.entries,
            t.implementations[i].implementor,
        ) && known(t.entries, t.implementations[i].trait_name)
    &&& forall|i: int|
        0 <= i < t.links.len() ==> known(t.entries, (#[trigger] t.links[i]).owner) && known(
            t.entries,
            t.links[i].target,
        )
}

/// The edges of the implementations, when all of them could be built.
pub open spec fn implemented(edges: Seq<EdgeView>) -> Result<Seq<EdgeView>, DanglingView> {
    Ok(edges)
}

/// Whether an executable result and a model result are the same edge.
pub open spec fn same_edge(r: Result<Edge, DanglingEdgeError>, s: Result<EdgeView, DanglingView>)
    -> bool {
    match (r, s) {
        (Ok(e), Ok(se)) => e@ == se,
        (Err(e), Err(se)) => e@ == se,
        _ => false,
    }
}

/// Whether an executable result and a model result are the same graph.
pub open spec fn same_graph(
    r: Result<SymbolGraph, DanglingEdgeError>,
    s: Result<GraphView, DanglingView>,
) -> bool {
    match (r, s) {
        (Ok(g), Ok(sg)) => g@ == sg,
        (Err(e), Err(se)) => e@ == se,
        _ => false,
    }
}

fn edge_for(
    entries: &Vec<SymbolEntry>,
    kind: EdgeKind,
    from: &Vec<u8>,
    to: &Vec<u8>,
    label: &Vec<u8>,
) -> (r: Result<Edge, DanglingEdgeError>)
    ensures
        same_edge(r, edge_between(views(entries@), kind, from@, to@, label@)),
        r matches Ok(e) ==> e.from < entries.len() && e.to < entries.len(),
{
    match find(entries, from.as_slice()) {
        None => Err(DanglingEdgeError { kind, name: copy_bytes(from) }),
        Some(a) => match find(entries, to.as_slice()) {
            None => Err(DanglingEdgeError { kind, name: copy_bytes(to) }),
            Some(b) => Ok(Edge { from: a, to: b, kind, label: copy_bytes(label) }),
        },
    }
}

fn has_edge(edges: &Vec<Edge>, e: &Edge) -> (r: bool)
    ensures
        r == views(edges@).contains(e@),
{
    let mut i: usize = 0;
    while i < edges.len()
        invariant
            i <= edges.len(),
            forall|k: int| 0 <= k < i ==> views(edges@)[k] != e@,
        decreases edges.len() - i,
    {
        let x = &edges[i];
        if x.from == e.from && x.to == e.to && x.kind == e.kind && same_bytes(
            x.label.as_slice(),
            e.label.as_slice(),
        ) {
            assert(views(edges@)[i as int] == e@);
            return true;
        }
        i += 1;
    }
    false
}

pub(crate) fn insert_edge(edges: &mut Vec<Edge>, e: Edge)
    ensures
        views(final(edges)@) == add_edge(views(old(edges)@), e@),
{
    if !has_edge(edges, &e) {
        edges.push(e);
    }
}

/// Adding an edge between nodes keeps the edges well formed.
pub proof fn lemma_add_edge(nodes: Seq<SymbolView>, edges: Seq<EdgeView>, e: EdgeView)
    requires
        edges_well_formed(nodes, edges),
        e.from < nodes.len(),
        e.to < nodes.len(),
    ensures
        edges_well_formed(nodes, add_edge(edges, e)),
{
    let after = add_edge(edges, e);
    if !edges.contains(e) {
        assert forall|i: int, j: int| 0 <= i < j < after.len() implies #[trigger] after[i]
            != #[trigger] after[j] by {
            if j == edges.len() {
                assert(edges[i] == after[i]);
                assert(edges.contains(edges[i]));
            } else {
                assert(edges[i] == after[i] && edges[j] == after[j]);
            }
        }
    }
}

fn copy_entries(entries: &Vec<SymbolEntry>) -> (r: Vec<SymbolEntry>)
    ensures
        views(r@) == views(entries@),
{
    let mut out: Vec<SymbolEntry> = Vec::new();
    let mut i: usize = 0;
    while i < entries.len()
        invariant
            i <= entries.len(),
            views(out@) == views(entries@).subrange(0, i as int),
        decreases entries.len() - i,
    {
        let e = &entries[i];
        let ghost before = views(out@);
        out.push(
            SymbolEntry {
                name: copy_bytes(&e.name),
                kind: e.kind,
                declaration: e.declaration,
                visibility: e.visibility,
            },
        );
        assert(views(out@) =~= views(entries@).subrange(0, i + 1));
        i += 1;
    }
    assert(views(entries@).subrange(0, i as int) =~= views(entries@));
    out
}

/// Builds the graph of a symbol table: an `Implements` edge for every valid
/// implementation, then a `Contains` or an `Instantiates` edge for every
/// link. An edge that occurs already is not added again. The build fails
/// on the first edge that has an end outside the table, and names that end.
pub fn build(table: &SymbolTable) -> (r: Result<SymbolGraph, DanglingEdgeError>)
    ensures
        same_graph(r, built(table@)),
        r matches Ok(g) ==> g@.well_formed(),
{
    let mut edges: Vec<Edge> = Vec::new();
    let ghost nodes = views(table.entries@);
    let mut i: usize = 0;
    while i < table.implementations.len()
        invariant
            i <= table.implementations.len(),
            nodes == views(table.entries@),
            edges_well_formed(nodes, views(edges@)),
            implement_edges(table@, i as int, views(edges@)) == implement_edges(
                table@,
                0,
                Seq::empty(),
            ),
        decreases table.implementations.len() - i,
    {
        let im = &table.implementations[i];
        if im.valid {
            let none: Vec<u8> = Vec::new();
            match edge_for(
                &table.entries,
                EdgeKind::Implements,
                &im.implementor,
                &im.trait_name,
                &none,
            ) {
                Ok(e) => {
                    proof {
                        lemma_add_edge(nodes, views(edges@), e@);
                    }
                    insert_edge(&mut edges, e);
                },
                Err(e) => {
                    return Err(e);
                },
            }
        }
        i += 1;
    }
    let ghost first = views(edges@);
    let mut i: usize = 0;
    while i < table.links.len()
        invariant
            i <= table.links.len(),
            nodes == views(table.entries@),
            edges_well_formed(nodes, views(edges@)),
            implement_edges(table@, 0, Seq::empty()) == implemented(first),
            link_edges(table@, i as int, views(edges@)) == link_edges(table@, 0, first),
        decreases table.links.len() - i,
    {
        let l = &table.links[i];
        match edge_for(&table.entries, l.kind, &l.owner, &l.target, &l.argument) {
            Ok(e) => {
                proof {
                    lemma_add_edge(nodes, views(edges@), e@);
                }
                insert_edge(&mut edges, e);
            },
            Err(e) => {
                return Err(e);
            },
        }
        i += 1;
    }
    Ok(SymbolGraph { nodes: copy_entries(&table.entries), edges })
}

} // verus!
