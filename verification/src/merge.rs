//! Merging the graph of one text into the graph of others. One owner holds
//! the merged graph and applies the partial graphs one after another; a
//! graph that declares a name again is turned down and changes nothing.

use vstd::prelude::*;
use crate::text::{views, copy_bytes, group_views};
use crate::symbols::{find, known, lookup, SymbolEntry, SymbolView};
use crate::graph::{
    add_edge, edges_well_formed, insert_edge, lemma_add_edge, Edge, EdgeView, GraphView,
    SymbolGraph,
};

verus! {

broadcast use group_views;

/// Why a graph was not merged.
#[derive(Clone, Debug, PartialEq, Eq)]
pub enum MergeError {
    /// The name is declared on both sides, or twice in the graph to merge.
    DuplicateSymbol(Vec<u8>),
    /// The edge at this index of the graph to merge ends outside it.
    DanglingEdge(usize),
}

/// The mathematical model of a [`MergeError`].
pub enum MergeErrorView {
    DuplicateSymbol(Seq<u8>),
    DanglingEdge(usize),
}

impl View for MergeError {
    type V = MergeErrorView;

    open spec fn view(&self) -> MergeErrorView {
        match self {
            MergeError::DuplicateSymbol(name) => MergeErrorView::DuplicateSymbol(name@),
            MergeError::DanglingEdge(k) => MergeErrorView::DanglingEdge(*k),
        }
    }
}

/// Whether the node at `i` of `part` has a name that `whole` has, or that
/// an earlier node of `part` has.
pub open spec fn clashes(whole: Seq<SymbolView>, part: Seq<SymbolView>, i: int) -> bool {
    known(whole, part[i].name) || lookup(part, part[i].name) != Some(i)
}

/// The index of the first node of `part`, from `i` on, whose name clashes.
pub open spec fn first_clash(whole: Seq<SymbolView>, part: Seq<SymbolView>, i: int) -> Option<int>
    decreases part.len() - i,
{
    if i < 0 || i >= part.len() {
        None
    } else if clashes(whole, part, i) {
        Some(i)
    } else {
        first_clash(whole, part, i + 1)
    }
}

/// The index of the first edge, from `k` on, that has an end at or beyond
/// `n`.
pub open spec fn first_dangling(edges: Seq<EdgeView>, n: int, k: int) -> Option<int>
    decreases edges.len() - k,
{
    if k < 0 || k >= edges.len() {
        None
    } else if edges[k].from >= n || edges[k].to >= n {
        Some(k)
    } else {
        first_dangling(edges, n, k + 1)
    }
}

/// An edge between the same nodes after `n` nodes were put before them.
pub open spec fn shifted(e: EdgeView, n: int) -> EdgeView {
    EdgeView { from: (e.from + n) as usize, to: (e.to + n) as usize, kind: e.kind, label: e.label }
}

/// `acc` with the edges `edges[k..]`, shifted by `n`.
pub open spec fn with_shifted(edges: Seq<EdgeView>, k: int, n: int, acc: Seq<EdgeView>) -> Seq<
    EdgeView,
>
    decreases edges.len() - k,
{
    if k < 0 || k >= edges.len() {
        acc
    } else {
        with_shifted(edges, k + 1, n, add_edge(acc, shifted(edges[k], n)))
    }
}

/// What merging `part` into `whole` gives: the nodes of both, those of
/// `whole` first, and the edges of both, those of `part` between the new
/// places of their nodes. The merge is turned down if a name of `part`
/// clashes, or else if an edge of `part` ends outside `part`.
pub open spec fn merged(whole: GraphView, part: GraphView) -> Result<GraphView, MergeErrorView> {
    match first_clash(whole.nodes, part.nodes, 0) {
        Some(i) => Err(MergeErrorView::DuplicateSymbol(part.nodes[i].name)),
        None => match first_dangling(part.edges, part.nodes.len() as int, 0) {
            Some(k) => Err(MergeErrorView::DanglingEdge(k as usize)),
            None => Ok(
                GraphView {
                    nodes: whole.nodes + part.nodes,
                    edges: with_shifted(part.edges, 0, whole.nodes.len() as int, whole.edges),
                },
            ),
        },
    }
}

/// Edges that join nodes still join nodes when more nodes are added.
proof fn lemma_more_nodes(nodes: Seq<SymbolView>, more: Seq<SymbolView>, edges: Seq<EdgeView>)
    requires
        edges_well_formed(nodes, edges),
    ensures
        edges_well_formed(nodes + more, edges),
{
}

/// Merges the graph `part` into `whole`. On success `whole` holds the nodes
/// and edges of both; a well-formed graph stays well formed. On failure
/// `whole` is unchanged.
pub fn merge(whole: &mut SymbolGraph, part: &SymbolGraph) -> (r: Result<(), MergeError>)
    ensures
        match merged(old(whole)@, part@) {
            Ok(g) => r is Ok && final(whole)@ == g,
            Err(e) => r is Err && r->Err_0@ == e && final(whole)@ == old(whole)@,
        },
        r is Ok && old(whole)@.well_formed() ==> final(whole)@.well_formed(),
{
    let m: usize = part.nodes.len();
    let mut i: usize = 0;
    while i < m
        invariant
            i <= m,
            m == part.nodes.len(),
            *whole == *old(whole),
            first_clash(views(whole.nodes@), views(part.nodes@), i as int) == first_clash(
                views(whole.nodes@),
                views(part.nodes@),
                0,
            ),
        decreases m - i,
    {
        let name = &part.nodes[i].name;
        let taken = find(&whole.nodes, name.as_slice()).is_some();
        let first = match find(&part.nodes, name.as_slice()) {
            Some(k) => k == i,
            None => false,
        };
        if taken || !first {
            return Err(MergeError::DuplicateSymbol(copy_bytes(name)));
        }
        i += 1;
    }
    let mut k: usize = 0;
    while k < part.edges.len()
        invariant
            k <= part.edges.len(),
            m == part.nodes.len(),
            *whole == *old(whole),
            first_clash(views(whole.nodes@), views(part.nodes@), 0) is None,
            first_dangling(views(part.edges@), m as int, k as int) == first_dangling(
                views(part.edges@),
                m as int,
                0,
            ),
        decreases part.edges.len() - k,
    {
        if part.edges[k].from >= m || part.edges[k].to >= m {
            return Err(MergeError::DanglingEdge(k));
        }
        k += 1;
    }
    let n: usize = whole.nodes.len();
    let ghost old_nodes = views(whole.nodes@);
    let ghost old_edges = views(whole.edges@);
    let mut i: usize = 0;
    while i < m
        invariant
            i <= m,
            m == part.nodes.len(),
            n == old_nodes.len(),
            whole.edges == old(whole).edges,
            views(whole.nodes@) == old_nodes + views(part.nodes@).subrange(0, i as int),
        decreases m - i,
    {
        let e = &part.nodes[i];
        whole.nodes.push(
            SymbolEntry {
                name: copy_bytes(&e.name),
                kind: e.kind,
                declaration: e.declaration,
                visibility: e.visibility,
            },
        );
        assert(views(whole.nodes@) =~= old_nodes + views(part.nodes@).subrange(0, i + 1));
        i += 1;
    }
    assert(views(part.nodes@).subrange(0, m as int) =~= views(part.nodes@));
    let ghost all_nodes = views(whole.nodes@);
    proof {
        if edges_well_formed(old_nodes, old_edges) {
            lemma_more_nodes(old_nodes, views(part.nodes@), old_edges);
        }
    }
    let mut k: usize = 0;
    while k < part.edges.len()
        invariant
            k <= part.edges.len(),
            m == part.nodes.len(),
            n + m == whole.nodes.len(),
            views(whole.nodes@) == all_nodes,
            all_nodes.len() == n + m,
            first_dangling(views(part.edges@), m as int, 0) is None,
            first_dangling(views(part.edges@), m as int, k as int) is None,
            edges_well_formed(old_nodes, old_edges) ==> edges_well_formed(
                all_nodes,
                views(whole.edges@),
            ),
            with_shifted(views(part.edges@), k as int, n as int, views(whole.edges@))
                == with_shifted(views(part.edges@), 0, n as int, old_edges),
        decreases part.edges.len() - k,
    {
        let e = &part.edges[k];
        let moved = Edge {
            from: e.from + n,
            to: e.to + n,
            kind: e.kind,
            label: copy_bytes(&e.label),
        };
        assert(moved@ == shifted(views(part.edges@)[k as int], n as int));
        proof {
            if edges_well_formed(old_nodes, old_edges) {
                lemma_add_edge(all_nodes, views(whole.edges@), moved@);
            }
        }
        insert_edge(&mut whole.edges, moved);
        k += 1;
    }
    Ok(())
}

} // verus!
