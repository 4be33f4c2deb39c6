//! What resolution computes, as functions on the model of a tree.

use vstd::prelude::*;
use crate::syntax::{ChildKind, ChildView, DeclKind, DeclView, TypeUseView};
use crate::symbols::{
    is_kind, known, lookup, EdgeKind, ImplementationView, LinkView, ResolutionErrorKind,
    ResolutionErrorView, SymbolView, TableView,
};

verus! {

/// Whether a declaration gives a name to its scope. Implementations do not.
pub open spec fn registrable(d: DeclView) -> bool {
    d.kind != DeclKind::Implementation
}

/// The entry that registers the declaration at `index`.
pub open spec fn entry_of(d: DeclView, index: int) -> SymbolView {
    SymbolView {
        name: d.name,
        kind: d.kind,
        declaration: index as usize,
        visibility: d.visibility,
    }
}

/// The error of the given kind about `name`, raised for the declaration at
/// `index`.
pub open spec fn problem(kind: ResolutionErrorKind, name: Seq<u8>, d: DeclView, index: int)
    -> ResolutionErrorView {
    ResolutionErrorView {
        kind,
        name,
        declaration: index as usize,
        offset: d.offset,
        line: d.line,
        column: d.column,
    }
}

/// The first pass, from declaration `i` on: every registrable declaration
/// is registered under its name, unless the name is taken. Then the first
/// definition stays and the later one is reported.
pub open spec fn register(
    decls: Seq<DeclView>,
    i: int,
    entries: Seq<SymbolView>,
    errors: Seq<ResolutionErrorView>,
) -> (Seq<SymbolView>, Seq<ResolutionErrorView>)
    decreases decls.len() - i,
{
    if i < 0 || i >= decls.len() {
        (entries, errors)
    } else if !registrable(decls[i]) {
        register(decls, i + 1, entries, errors)
    } else if known(entries, decls[i].name) {
        register(
            decls,
            i + 1,
            entries,
            errors.push(problem(ResolutionErrorKind::DuplicateSymbol, decls[i].name, decls[i], i)),
        )
    } else {
        register(decls, i + 1, entries.push(entry_of(decls[i], i)), errors)
    }
}

/// Whether `name` is a generic parameter of the declaration: such a name
/// stands for a type inside the declaration and nowhere else.
pub open spec fn placeholder(d: DeclView, name: Seq<u8>) -> bool {
    d.generics.contains(name)
}

/// Whether a name is registered for a struct or an enum.
pub open spec fn is_data(entries: Seq<SymbolView>, name: Seq<u8>) -> bool {
    is_kind(entries, name, DeclKind::Struct) || is_kind(entries, name, DeclKind::Enum)
}

/// The link that a use of a type by the declaration `d` gives. A use
/// outside every argument list gives a `Contains` link if it is the type
/// of a field or a variant and names a struct or an enum. A use inside the
/// argument list of a registered type gives an `Instantiates` link. Generic
/// parameters of `d` name no registered type.
pub open spec fn link_of(entries: Seq<SymbolView>, d: DeclView, u: TypeUseView, fieldlike: bool)
    -> Option<LinkView> {
    if u.within.len() == 0 {
        if fieldlike && !placeholder(d, u.name) && is_data(entries, u.name) {
            Some(
                LinkView {
                    kind: EdgeKind::Contains,
                    owner: d.name,
                    target: u.name,
                    argument: Seq::empty(),
                    placeholder: false,
                },
            )
        } else {
            None
        }
    } else if !placeholder(d, u.within) && known(entries, u.within) {
        Some(
            LinkView {
                kind: EdgeKind::Instantiates,
                owner: d.name,
                target: u.within,
                argument: u.name,
                placeholder: placeholder(d, u.name),
            },
        )
    } else {
        None
    }
}

/// `acc` with the link, if there is one.
pub open spec fn with_link(acc: Seq<LinkView>, l: Option<LinkView>) -> Seq<LinkView> {
    match l {
        Some(l) => acc.push(l),
        None => acc,
    }
}

/// The links of the uses `uses[k..]`, after those gathered so far.
pub open spec fn use_links(
    entries: Seq<SymbolView>,
    d: DeclView,
    uses: Seq<TypeUseView>,
    k: int,
    fieldlike: bool,
    acc: Seq<LinkView>,
) -> Seq<LinkView>
    decreases uses.len() - k,
{
    if k < 0 || k >= uses.len() {
        acc
    } else {
        use_links(
            entries,
            d,
            uses,
            k + 1,
            fieldlike,
            with_link(acc, link_of(entries, d, uses[k], fieldlike)),
        )
    }
}

/// Whether a child is a field or a variant.
pub open spec fn fieldlike(c: ChildView) -> bool {
    c.kind != ChildKind::Method
}

/// The links of the children `d.children[c..]`, after those gathered so
/// far.
pub open spec fn child_links(entries: Seq<SymbolView>, d: DeclView, c: int, acc: Seq<LinkView>)
    -> Seq<LinkView>
    decreases d.children.len() - c,
{
    if c < 0 || c >= d.children.len() {
        acc
    } else {
        child_links(
            entries,
            d,
            c + 1,
            use_links(entries, d, d.children[c].types, 0, fieldlike(d.children[c]), acc),
        )
    }
}

/// The links of a declaration: those of its header, then those of its
/// children.
pub open spec fn decl_links(entries: Seq<SymbolView>, d: DeclView, acc: Seq<LinkView>) -> Seq<
    LinkView,
> {
    child_links(entries, d, 0, use_links(entries, d, d.types, 0, false, acc))
}

/// Whether a declaration declares a method of the given name.
pub open spec fn has_method(d: DeclView, name: Seq<u8>) -> bool {
    exists|k: int|
        0 <= k < d.children.len() && (#[trigger] d.children[k]).kind == ChildKind::Method
            && d.children[k].name == name
}

/// Whether an implementation declares every method that a trait requires:
/// every method that the trait declares without a body.
pub open spec fn satisfies(tr: DeclView, im: DeclView) -> bool {
    forall|k: int|
        0 <= k < tr.children.len() && (#[trigger] tr.children[k]).kind == ChildKind::Method
            && !tr.children[k].has_body ==> has_method(im, tr.children[k].name)
}

/// Whether the declaration at `i` is the one that its name is registered
/// for.
pub open spec fn owns(entries: Seq<SymbolView>, d: DeclView, i: int) -> bool {
    registrable(d) && match lookup(entries, d.name) {
        Some(k) => entries[k].declaration == i,
        None => false,
    }
}

/// Whether the type that an implementation targets is registered. A generic
/// parameter of the implementation is no registered type.
pub open spec fn target_known(entries: Seq<SymbolView>, d: DeclView) -> bool {
    known(entries, d.name) && !placeholder(d, d.name)
}

/// The errors of the implementation at `i`, after those gathered so far:
/// its trait, if it names one, must be a registered trait; its target must
/// be registered or be a generic parameter of the implementation.
pub open spec fn impl_errors(
    entries: Seq<SymbolView>,
    d: DeclView,
    i: int,
    errors: Seq<ResolutionErrorView>,
) -> Seq<ResolutionErrorView> {
    let first = match d.trait_name {
        Some(tn) => if is_kind(entries, tn, DeclKind::Trait) {
            errors
        } else {
            errors.push(problem(ResolutionErrorKind::UnresolvedReference, tn, d, i))
        },
        None => errors,
    };
    if known(entries, d.name) || placeholder(d, d.name) {
        first
    } else {
        first.push(problem(ResolutionErrorKind::UnresolvedReference, d.name, d, i))
    }
}

/// The edge of the implementation at `i`, if its trait and its target are
/// both resolved.
pub open spec fn impl_edge(decls: Seq<DeclView>, entries: Seq<SymbolView>, d: DeclView, i: int)
    -> Option<ImplementationView> {
    match d.trait_name {
        Some(tn) => if is_kind(entries, tn, DeclKind::Trait) && target_known(entries, d) {
            Some(
                ImplementationView {
                    implementor: d.name,
                    trait_name: tn,
                    declaration: i as usize,
                    valid: satisfies(decls[entries[lookup(entries, tn)->0].declaration as int], d),
                },
            )
        } else {
            None
        },
        None => None,
    }
}

/// `acc` with the edge, if there is one.
pub open spec fn with_edge(acc: Seq<ImplementationView>, e: Option<ImplementationView>) -> Seq<
    ImplementationView,
> {
    match e {
        Some(e) => acc.push(e),
        None => acc,
    }
}

/// The second pass, from declaration `i` on. An implementation has its
/// references resolved against the registered names; what is not found is
/// reported and gives no edge. A declaration that owns its name, or an
/// implementation whose target is registered, has the types it uses
/// linked.
pub open spec fn link(
    decls: Seq<DeclView>,
    entries: Seq<SymbolView>,
    i: int,
    edges: Seq<ImplementationView>,
    links: Seq<LinkView>,
    errors: Seq<ResolutionErrorView>,
) -> (Seq<ImplementationView>, Seq<LinkView>, Seq<ResolutionErrorView>)
    decreases decls.len() - i,
{
    if i < 0 || i >= decls.len() {
        (edges, links, errors)
    } else {
        let d = decls[i];
        if d.kind == DeclKind::Implementation {
            link(
                decls,
                entries,
                i + 1,
                with_edge(edges, impl_edge(decls, entries, d, i)),
                if target_known(entries, d) {
                    decl_links(entries, d, links)
                } else {
                    links
                },
                impl_errors(entries, d, i, errors),
            )
        } else if owns(entries, d, i) {
            link(decls, entries, i + 1, edges, decl_links(entries, d, links), errors)
        } else {
            link(decls, entries, i + 1, edges, links, errors)
        }
    }
}

/// The symbol table and the errors that a tree resolves to.
pub open spec fn resolved(decls: Seq<DeclView>) -> (TableView, Seq<ResolutionErrorView>) {
    let (entries, errors) = register(decls, 0, Seq::empty(), Seq::empty());
    let (edges, links, all) = link(decls, entries, 0, Seq::empty(), Seq::empty(), errors);
    (TableView { entries, implementations: edges, links }, all)
}

} // verus!
