//! What holds of resolution and graph building on every input.

use vstd::prelude::*;
use crate::syntax::{DeclKind, DeclView, TypeUseView};
use crate::symbols::{
    is_kind, known, lemma_find_from, lookup, ImplementationView, LinkView, ResolutionErrorKind,
    ResolutionErrorView, SymbolView, TableView,
};
use crate::resolution::{
    child_links, decl_links, entry_of, impl_edge, impl_errors, link, link_of, owns, register,
    registrable, resolved, target_known, use_links, with_edge, with_link,
};
use crate::graph::{
    add_edge, built, consistent, edge_between, implement_edges, link_edges, EdgeView,
};
use crate::token::LexError;
use crate::lexer::{lex_errors, tokens};
use crate::grammar::parsed;
use crate::canon::{canonical, lemma_canonical_is_stable};
use crate::layout::{lemma_parse_ignores_layout, reasons, tree_shape};

verus! {

/// The number of registrable declarations from the `i`-th on.
pub open spec fn registrable_count(decls: Seq<DeclView>, i: int) -> nat
    decreases decls.len() - i,
{
    if i < 0 || i >= decls.len() {
        0
    } else if registrable(decls[i]) {
        1 + registrable_count(decls, i + 1)
    } else {
        registrable_count(decls, i + 1)
    }
}

/// No two registrable declarations have the same name.
pub open spec fn distinct_names(decls: Seq<DeclView>) -> bool {
    forall|i: int, j: int|
        0 <= i < j < decls.len() && registrable(#[trigger] decls[i]) && registrable(
            #[trigger] decls[j],
        ) ==> decls[i].name != decls[j].name
}

/// A registrable declaration before the `i`-th has the given name.
pub open spec fn declared_before(decls: Seq<DeclView>, name: Seq<u8>, i: int) -> bool {
    exists|j: int| 0 <= j < i && j < decls.len() && registrable(#[trigger] decls[j]) && decls[j].name == name
}

/// Every entry is named after a registrable declaration before the `i`-th.
pub open spec fn from_earlier(decls: Seq<DeclView>, entries: Seq<SymbolView>, i: int) -> bool {
    forall|k: int|
        0 <= k < entries.len() ==> declared_before(decls, (#[trigger] entries[k]).name, i)
}

/// No two entries have the same name.
pub open spec fn unique_names(entries: Seq<SymbolView>) -> bool {
    forall|a: int, b: int|
        0 <= a < b < entries.len() ==> (#[trigger] entries[a]).name != (#[trigger] entries[b]).name
}

/// No error reports a duplicate.
pub open spec fn no_duplicate_reported(errors: Seq<ResolutionErrorView>) -> bool {
    forall|k: int|
        0 <= k < errors.len() ==> (#[trigger] errors[k]).kind
            != ResolutionErrorKind::DuplicateSymbol
}

proof fn lemma_register_distinct(
    decls: Seq<DeclView>,
    i: int,
    entries: Seq<SymbolView>,
    errors: Seq<ResolutionErrorView>,
)
    requires
        0 <= i <= decls.len(),
        distinct_names(decls),
        from_earlier(decls, entries, i),
    ensures
        register(decls, i, entries, errors).1 == errors,
        register(decls, i, entries, errors).0.len() == entries.len() + registrable_count(decls, i),
    decreases decls.len() - i,
{
    if i < decls.len() {
        let d = decls[i];
        assert forall|k: int| 0 <= k < entries.len() implies declared_before(
            decls,
            (#[trigger] entries[k]).name,
            i + 1,
        ) by {
            assert(declared_before(decls, entries[k].name, i));
            let j = choose|j: int|
                0 <= j < i && j < decls.len() && registrable(#[trigger] decls[j]) && decls[j].name
                    == entries[k].name;
            assert(0 <= j < i + 1 && registrable(decls[j]) && decls[j].name == entries[k].name);
        }
        if !registrable(d) {
            lemma_register_distinct(decls, i + 1, entries, errors);
        } else {
            lemma_find_from(entries, d.name, 0);
            if known(entries, d.name) {
                let k = lookup(entries, d.name)->0;
                assert(declared_before(decls, entries[k].name, i));
                let j = choose|j: int|
                    0 <= j < i && j < decls.len() && registrable(#[trigger] decls[j])
                        && decls[j].name == entries[k].name;
                assert(registrable(decls[j]) && registrable(decls[i]));
                assert(false);
            } else {
                let next = entries.push(entry_of(d, i));
                assert forall|k: int| 0 <= k < next.len() implies declared_before(
                    decls,
                    (#[trigger] next[k]).name,
                    i + 1,
                ) by {
                    if k < entries.len() {
                        assert(next[k] == entries[k]);
                        assert(declared_before(decls, entries[k].name, i + 1));
                    } else {
                        assert(registrable(decls[i]) && decls[i].name == next[k].name);
                    }
                }
                lemma_register_distinct(decls, i + 1, next, errors);
            }
        }
    }
}

proof fn lemma_register_unique(
    decls: Seq<DeclView>,
    i: int,
    entries: Seq<SymbolView>,
    errors: Seq<ResolutionErrorView>,
)
    requires
        0 <= i,
        unique_names(entries),
    ensures
        unique_names(register(decls, i, entries, errors).0),
    decreases decls.len() - i,
{
    if i < decls.len() {
        let d = decls[i];
        if !registrable(d) {
            lemma_register_unique(decls, i + 1, entries, errors);
        } else if known(entries, d.name) {
            lemma_register_unique(
                decls,
                i + 1,
                entries,
                errors.push(
                    crate::resolution::problem(ResolutionErrorKind::DuplicateSymbol, d.name, d, i),
                ),
            );
        } else {
            lemma_find_from(entries, d.name, 0);
            let next = entries.push(entry_of(d, i));
            assert forall|a: int, b: int| 0 <= a < b < next.len() implies (#[trigger] next[a]).name
                != (#[trigger] next[b]).name by {
                if b < entries.len() {
                    assert(next[a] == entries[a] && next[b] == entries[b]);
                } else {
                    assert(next[a] == entries[a]);
                }
            }
            lemma_register_unique(decls, i + 1, next, errors);
        }
    }
}

proof fn lemma_link_reports_no_duplicate(
    decls: Seq<DeclView>,
    entries: Seq<SymbolView>,
    i: int,
    edges: Seq<ImplementationView>,
    links: Seq<LinkView>,
    errors: Seq<ResolutionErrorView>,
)
    requires
        0 <= i,
        no_duplicate_reported(errors),
    ensures
        no_duplicate_reported(link(decls, entries, i, edges, links, errors).2),
    decreases decls.len() - i,
{
    if i < decls.len() {
        let d = decls[i];
        if d.kind == DeclKind::Implementation {
            let next = impl_errors(entries, d, i, errors);
            assert forall|k: int| 0 <= k < next.len() implies (#[trigger] next[k]).kind
                != ResolutionErrorKind::DuplicateSymbol by {
                if k < errors.len() {
                    assert(next[k] == errors[k]);
                }
            }
            lemma_link_reports_no_duplicate(
                decls,
                entries,
                i + 1,
                with_edge(edges, impl_edge(decls, entries, d, i)),
                if target_known(entries, d) {
                    decl_links(entries, d, links)
                } else {
                    links
                },
                next,
            );
        } else if owns(entries, d, i) {
            lemma_link_reports_no_duplicate(
                decls,
                entries,
                i + 1,
                edges,
                decl_links(entries, d, links),
                errors,
            );
        } else {
            lemma_link_reports_no_duplicate(decls, entries, i + 1, edges, links, errors);
        }
    }
}

/// Where no two registrable declarations share a name, resolution reports
/// no duplicate and registers every registrable declaration: the table has
/// as many entries as the tree has such declarations.
pub proof fn lemma_distinct_names_resolve_cleanly(decls: Seq<DeclView>)
    requires
        distinct_names(decls),
    ensures
        no_duplicate_reported(resolved(decls).1),
        resolved(decls).0.entries.len() == registrable_count(decls, 0),
{
    let none = Seq::<SymbolView>::empty();
    let no_errors = Seq::<ResolutionErrorView>::empty();
    lemma_register_distinct(decls, 0, none, no_errors);
    let (entries, errors) = register(decls, 0, none, no_errors);
    lemma_link_reports_no_duplicate(decls, entries, 0, Seq::empty(), Seq::empty(), errors);
}

/// The names of a resolved table are unique, whatever the tree.
pub proof fn lemma_resolved_names_unique(decls: Seq<DeclView>)
    ensures
        unique_names(resolved(decls).0.entries),
{
    lemma_register_unique(decls, 0, Seq::empty(), Seq::empty());
}

/// Both ends of every edge are registered.
pub open spec fn edges_known(entries: Seq<SymbolView>, edges: Seq<ImplementationView>) -> bool {
    forall|k: int|
        0 <= k < edges.len() ==> known(entries, (#[trigger] edges[k]).implementor) && known(
            entries,
            edges[k].trait_name,
        )
}

/// Both ends of every link are registered.
pub open spec fn links_known(entries: Seq<SymbolView>, links: Seq<LinkView>) -> bool {
    forall|k: int|
        0 <= k < links.len() ==> known(entries, (#[trigger] links[k]).owner) && known(
            entries,
            links[k].target,
        )
}

proof fn lemma_use_links_known(
    entries: Seq<SymbolView>,
    d: DeclView,
    uses: Seq<TypeUseView>,
    k: int,
    fieldlike: bool,
    acc: Seq<LinkView>,
)
    requires
        0 <= k,
        known(entries, d.name),
        links_known(entries, acc),
    ensures
        links_known(entries, use_links(entries, d, uses, k, fieldlike, acc)),
    decreases uses.len() - k,
{
    if k < uses.len() {
        let next = with_link(acc, link_of(entries, d, uses[k], fieldlike));
        assert forall|j: int| 0 <= j < next.len() implies known(
            entries,
            (#[trigger] next[j]).owner,
        ) && known(entries, next[j].target) by {
            if j < acc.len() {
                assert(next[j] == acc[j]);
            }
        }
        lemma_use_links_known(entries, d, uses, k + 1, fieldlike, next);
    }
}

proof fn lemma_child_links_known(
    entries: Seq<SymbolView>,
    d: DeclView,
    c: int,
    acc: Seq<LinkView>,
)
    requires
        0 <= c,
        known(entries, d.name),
        links_known(entries, acc),
    ensures
        links_known(entries, child_links(entries, d, c, acc)),
    decreases d.children.len() - c,
{
    if c < d.children.len() {
        let child = d.children[c];
        lemma_use_links_known(
            entries,
            d,
            child.types,
            0,
            crate::resolution::fieldlike(child),
            acc,
        );
        lemma_child_links_known(
            entries,
            d,
            c + 1,
            use_links(entries, d, child.types, 0, crate::resolution::fieldlike(child), acc),
        );
    }
}

proof fn lemma_decl_links_known(entries: Seq<SymbolView>, d: DeclView, acc: Seq<LinkView>)
    requires
        known(entries, d.name),
        links_known(entries, acc),
    ensures
        links_known(entries, decl_links(entries, d, acc)),
{
    lemma_use_links_known(entries, d, d.types, 0, false, acc);
    lemma_child_links_known(entries, d, 0, use_links(entries, d, d.types, 0, false, acc));
}

proof fn lemma_link_known(
    decls: Seq<DeclView>,
    entries: Seq<SymbolView>,
    i: int,
    edges: Seq<ImplementationView>,
    links: Seq<LinkView>,
    errors: Seq<ResolutionErrorView>,
)
    requires
        0 <= i,
        edges_known(entries, edges),
        links_known(entries, links),
    ensures
        edges_known(entries, link(decls, entries, i, edges, links, errors).0),
        links_known(entries, link(decls, entries, i, edges, links, errors).1),
    decreases decls.len() - i,
{
    if i < decls.len() {
        let d = decls[i];
        if d.kind == DeclKind::Implementation {
            let next_edges = with_edge(edges, impl_edge(decls, entries, d, i));
            assert forall|k: int| 0 <= k < next_edges.len() implies known(
                entries,
                (#[trigger] next_edges[k]).implementor,
            ) && known(entries, next_edges[k].trait_name) by {
                if k < edges.len() {
                    assert(next_edges[k] == edges[k]);
                }
            }
            let next_links = if target_known(entries, d) {
                decl_links(entries, d, links)
            } else {
                links
            };
            if target_known(entries, d) {
                lemma_decl_links_known(entries, d, links);
            }
            lemma_link_known(
                decls,
                entries,
                i + 1,
                next_edges,
                next_links,
                impl_errors(entries, d, i, errors),
            );
        } else if owns(entries, d, i) {
            lemma_decl_links_known(entries, d, links);
            lemma_link_known(decls, entries, i + 1, edges, decl_links(entries, d, links), errors);
        } else {
            lemma_link_known(decls, entries, i + 1, edges, links, errors);
        }
    }
}

/// Every table that resolution produces is consistent: whatever its
/// implementations and links refer to is registered in it.
pub proof fn lemma_resolved_is_consistent(decls: Seq<DeclView>)
    ensures
        consistent(resolved(decls).0),
{
    let (entries, errors) = register(decls, 0, Seq::empty(), Seq::empty());
    lemma_link_known(decls, entries, 0, Seq::empty(), Seq::empty(), errors);
}

proof fn lemma_implement_edges(t: TableView, i: int, acc: Seq<EdgeView>)
    requires
        0 <= i,
    ensures
        implement_edges(t, i, acc) is Ok <==> forall|k: int|
            i <= k < t.implementations.len() && (#[trigger] t.implementations[k]).valid ==> known(
                t.entries,
                t.implementations[k].implementor,
            ) && known(t.entries, t.implementations[k].trait_name),
    decreases t.implementations.len() - i,
{
    if i < t.implementations.len() {
        let im = t.implementations[i];
        if !im.valid {
            lemma_implement_edges(t, i + 1, acc);
        } else {
            match edge_between(
                t.entries,
                crate::symbols::EdgeKind::Implements,
                im.implementor,
                im.trait_name,
                Seq::empty(),
            ) {
                Ok(e) => {
                    lemma_implement_edges(t, i + 1, add_edge(acc, e));
                },
                Err(_) => {
                    assert(!(known(t.entries, im.implementor) && known(t.entries, im.trait_name)));
                },
            }
        }
    }
}

proof fn lemma_link_edges(t: TableView, i: int, acc: Seq<EdgeView>)
    requires
        0 <= i,
    ensures
        link_edges(t, i, acc) is Ok <==> forall|k: int|
            i <= k < t.links.len() ==> known(t.entries, (#[trigger] t.links[k]).owner) && known(
                t.entries,
                t.links[k].target,
            ),
    decreases t.links.len() - i,
{
    if i < t.links.len() {
        let l = t.links[i];
        match edge_between(t.entries, l.kind, l.owner, l.target, l.argument) {
            Ok(e) => {
                lemma_link_edges(t, i + 1, add_edge(acc, e));
            },
            Err(_) => {
                assert(!(known(t.entries, l.owner) && known(t.entries, l.target)));
            },
        }
    }
}

/// A graph is built exactly of the consistent tables: the build fails if
/// and only if a valid implementation or a link refers to a name that the
/// table does not register.
pub proof fn lemma_built_iff_consistent(t: TableView)
    ensures
        built(t) is Ok <==> consistent(t),
{
    lemma_implement_edges(t, 0, Seq::empty());
    match implement_edges(t, 0, Seq::empty()) {
        Ok(first) => {
            lemma_link_edges(t, 0, first);
        },
        Err(_) => {},
    }
}

/// Building the graph of a table that resolution produced never fails.
pub proof fn lemma_resolved_table_builds(decls: Seq<DeclView>)
    ensures
        built(resolved(decls).0) is Ok,
{
    lemma_resolved_is_consistent(decls);
    lemma_built_iff_consistent(resolved(decls).0);
}


/// The number of errors that report a duplicate.
pub open spec fn duplicate_count(errors: Seq<ResolutionErrorView>) -> nat
    decreases errors.len(),
{
    if errors.len() == 0 {
        0
    } else if errors.last().kind == ResolutionErrorKind::DuplicateSymbol {
        duplicate_count(errors.drop_last()) + 1
    } else {
        duplicate_count(errors.drop_last())
    }
}

proof fn lemma_duplicate_count_push(errors: Seq<ResolutionErrorView>, e: ResolutionErrorView)
    ensures
        duplicate_count(errors.push(e)) == duplicate_count(errors) + if e.kind
            == ResolutionErrorKind::DuplicateSymbol {
            1nat
        } else {
            0nat
        },
{
    assert(errors.push(e).drop_last() =~= errors);
}

proof fn lemma_register_counts(
    decls: Seq<DeclView>,
    i: int,
    entries: Seq<SymbolView>,
    errors: Seq<ResolutionErrorView>,
)
    requires
        0 <= i,
    ensures
        register(decls, i, entries, errors).0.len() + duplicate_count(
            register(decls, i, entries, errors).1,
        ) == entries.len() + duplicate_count(errors) + registrable_count(decls, i),
    decreases decls.len() - i,
{
    if i < decls.len() {
        let d = decls[i];
        if !registrable(d) {
            lemma_register_counts(decls, i + 1, entries, errors);
        } else if known(entries, d.name) {
            let e = crate::resolution::problem(ResolutionErrorKind::DuplicateSymbol, d.name, d, i);
            lemma_duplicate_count_push(errors, e);
            lemma_register_counts(decls, i + 1, entries, errors.push(e));
        } else {
            lemma_register_counts(decls, i + 1, entries.push(entry_of(d, i)), errors);
        }
    }
}

proof fn lemma_link_counts(
    decls: Seq<DeclView>,
    entries: Seq<SymbolView>,
    i: int,
    edges: Seq<ImplementationView>,
    links: Seq<LinkView>,
    errors: Seq<ResolutionErrorView>,
)
    requires
        0 <= i,
    ensures
        duplicate_count(link(decls, entries, i, edges, links, errors).2) == duplicate_count(errors),
    decreases decls.len() - i,
{
    if i < decls.len() {
        let d = decls[i];
        if d.kind == DeclKind::Implementation {
            let first = match d.trait_name {
                Some(tn) => if is_kind(entries, tn, DeclKind::Trait) {
                    errors
                } else {
                    errors.push(
                        crate::resolution::problem(
                            ResolutionErrorKind::UnresolvedReference,
                            tn,
                            d,
                            i,
                        ),
                    )
                },
                None => errors,
            };
            match d.trait_name {
                Some(tn) => {
                    lemma_duplicate_count_push(
                        errors,
                        crate::resolution::problem(
                            ResolutionErrorKind::UnresolvedReference,
                            tn,
                            d,
                            i,
                        ),
                    );
                },
                None => {},
            }
            lemma_duplicate_count_push(
                first,
                crate::resolution::problem(
                    ResolutionErrorKind::UnresolvedReference,
                    d.name,
                    d,
                    i,
                ),
            );
            lemma_link_counts(
                decls,
                entries,
                i + 1,
                with_edge(edges, impl_edge(decls, entries, d, i)),
                if target_known(entries, d) {
                    decl_links(entries, d, links)
                } else {
                    links
                },
                impl_errors(entries, d, i, errors),
            );
        } else if owns(entries, d, i) {
            lemma_link_counts(decls, entries, i + 1, edges, decl_links(entries, d, links), errors);
        } else {
            lemma_link_counts(decls, entries, i + 1, edges, links, errors);
        }
    }
}

/// Every registrable declaration is either registered or reported as a
/// duplicate: the entries of the table and the duplicates among the errors
/// are together as many as the registrable declarations of the tree.
pub proof fn lemma_every_declaration_is_accounted_for(decls: Seq<DeclView>)
    ensures
        resolved(decls).0.entries.len() + duplicate_count(resolved(decls).1) == registrable_count(
            decls,
            0,
        ),
{
    let none = Seq::<SymbolView>::empty();
    let no_errors = Seq::<ResolutionErrorView>::empty();
    lemma_register_counts(decls, 0, none, no_errors);
    let (entries, errors) = register(decls, 0, none, no_errors);
    lemma_link_counts(decls, entries, 0, Seq::empty(), Seq::empty(), errors);
}

/// A name is registered exactly if some entry has it.
pub proof fn lemma_known_iff(entries: Seq<SymbolView>, name: Seq<u8>)
    ensures
        known(entries, name) <==> exists|k: int|
            0 <= k < entries.len() && (#[trigger] entries[k]).name == name,
{
    lemma_find_from(entries, name, 0);
    if known(entries, name) {
        let k = lookup(entries, name)->0;
        assert(entries[k].name == name);
    }
}

/// The declaration at `j` is the first registrable one of its name.
pub open spec fn first_of_its_name(decls: Seq<DeclView>, j: int) -> bool {
    &&& 0 <= j < decls.len()
    &&& registrable(decls[j])
    &&& forall|m: int|
        0 <= m < j && registrable(#[trigger] decls[m]) ==> decls[m].name != decls[j].name
}

/// Every entry registers the first registrable declaration of its name.
pub open spec fn entries_are_first(decls: Seq<DeclView>, entries: Seq<SymbolView>) -> bool {
    forall|k: int|
        0 <= k < entries.len() ==> first_of_its_name(
            decls,
            (#[trigger] entries[k]).declaration as int,
        ) && entries[k] == entry_of(
            decls[entries[k].declaration as int],
            entries[k].declaration as int,
        )
}

/// Every registrable declaration before the `i`-th has its name registered.
pub open spec fn earlier_are_known(decls: Seq<DeclView>, entries: Seq<SymbolView>, i: int)
    -> bool {
    forall|m: int|
        0 <= m < i && m < decls.len() && registrable(#[trigger] decls[m]) ==> known(
            entries,
            decls[m].name,
        )
}

proof fn lemma_register_first(
    decls: Seq<DeclView>,
    i: int,
    entries: Seq<SymbolView>,
    errors: Seq<ResolutionErrorView>,
)
    requires
        0 <= i,
        decls.len() <= usize::MAX,
        entries_are_first(decls, entries),
        earlier_are_known(decls, entries, i),
    ensures
        entries_are_first(decls, register(decls, i, entries, errors).0),
    decreases decls.len() - i,
{
    if i < decls.len() {
        let d = decls[i];
        if !registrable(d) {
            lemma_register_first(decls, i + 1, entries, errors);
        } else if known(entries, d.name) {
            lemma_register_first(
                decls,
                i + 1,
                entries,
                errors.push(
                    crate::resolution::problem(ResolutionErrorKind::DuplicateSymbol, d.name, d, i),
                ),
            );
        } else {
            let e = entry_of(d, i);
            let next = entries.push(e);
            assert(e.declaration as int == i);
            assert forall|m: int| 0 <= m < i && registrable(#[trigger] decls[m]) implies decls[m].name
                != d.name by {
                assert(known(entries, decls[m].name));
            }
            assert(first_of_its_name(decls, i));
            assert forall|k: int| 0 <= k < next.len() implies first_of_its_name(
                decls,
                (#[trigger] next[k]).declaration as int,
            ) && next[k] == entry_of(
                decls[next[k].declaration as int],
                next[k].declaration as int,
            ) by {
                if k < entries.len() {
                    assert(next[k] == entries[k]);
                }
            }
            assert forall|m: int|
                0 <= m < i + 1 && m < decls.len() && registrable(#[trigger] decls[m]) implies known(
                next,
                decls[m].name,
            ) by {
                lemma_known_iff(next, decls[m].name);
                if m < i {
                    lemma_known_iff(entries, decls[m].name);
                    let k = choose|k: int|
                        0 <= k < entries.len() && (#[trigger] entries[k]).name == decls[m].name;
                    assert(next[k].name == decls[m].name);
                } else {
                    assert(next[entries.len() as int].name == decls[m].name);
                }
            }
            lemma_register_first(decls, i + 1, next, errors);
        }
    }
}

/// The table retains the first definition of every name: each entry stands
/// for the first registrable declaration that has its name, and takes its
/// kind and visibility from that declaration.
pub proof fn lemma_entries_are_first_definitions(decls: Seq<DeclView>)
    requires
        decls.len() <= usize::MAX,
    ensures
        entries_are_first(decls, resolved(decls).0.entries),
{
    lemma_register_first(decls, 0, Seq::empty(), Seq::empty());
}


/// Writing a text out in canonical form is idempotent and keeps the shape
/// of its tree. The canonical form of a text has no lexical error; written
/// out again it is unchanged; and it parses to a tree of the same shape as
/// the text does, with parse errors of the same reasons.
pub proof fn lemma_canonical_form_is_idempotent(text: Seq<u8>)
    ensures
        canonical(canonical(text)) == canonical(text),
        lex_errors(canonical(text)) == Seq::<LexError>::empty(),
        tree_shape(parsed(tokens(canonical(text))).0) == tree_shape(parsed(tokens(text)).0),
        reasons(parsed(tokens(canonical(text))).1) == reasons(parsed(tokens(text)).1),
{
    lemma_canonical_is_stable(text);
    lemma_parse_ignores_layout(tokens(canonical(text)), tokens(text));
}

} // verus!
