//! The symbol resolver: a tree of declarations to a symbol table.

use vstd::prelude::*;
use crate::text::{views, same_bytes, copy_bytes, group_views};
use crate::syntax::{ChildKind, Cst, DeclKind, DeclarationNode, TypeUse};
use crate::symbols::{
    find, is_kind, known, EdgeKind, ImplementationEdge, LinkView, ResolutionError,
    ResolutionErrorKind, SymbolEntry, SymbolTable, TypeLink,
};
use crate::resolution::{
    child_links, decl_links, fieldlike, has_method, link, link_of, placeholder, problem,
    register, resolved, satisfies, use_links,
};

verus! {

broadcast use group_views;

fn has_name(list: &Vec<Vec<u8>>, name: &[u8]) -> (r: bool)
    ensures
        r == views(list@).contains(name@),
{
    let mut i: usize = 0;
    while i < list.len()
        invariant
            i <= list.len(),
            forall|k: int| 0 <= k < i ==> views(list@)[k] != name@,
        decreases list.len() - i,
    {
        if same_bytes(list[i].as_slice(), name) {
            assert(views(list@)[i as int] == name@);
            return true;
        }
        i += 1;
    }
    false
}

fn kind_known(entries: &Vec<SymbolEntry>, name: &[u8], kind: DeclKind) -> (r: bool)
    ensures
        r == is_kind(views(entries@), name@, kind),
{
    match find(entries, name) {
        Some(k) => entries[k].kind == kind,
        None => false,
    }
}

fn name_known(entries: &Vec<SymbolEntry>, name: &[u8]) -> (r: bool)
    ensures
        r == known(views(entries@), name@),
{
    find(entries, name).is_some()
}

fn make_problem(kind: ResolutionErrorKind, name: &Vec<u8>, d: &DeclarationNode, index: usize) -> (e:
    ResolutionError)
    ensures
        e@ == problem(kind, name@, d@, index as int),
{
    ResolutionError {
        kind,
        name: copy_bytes(name),
        declaration: index,
        offset: d.offset,
        line: d.line,
        column: d.column,
    }
}

/// The view of an optional link.
pub open spec fn link_opt_view(l: Option<TypeLink>) -> Option<LinkView> {
    match l {
        Some(l) => Some(l@),
        None => None,
    }
}

fn link_for(entries: &Vec<SymbolEntry>, d: &DeclarationNode, u: &TypeUse, fieldlike: bool) -> (r:
    Option<TypeLink>)
    ensures
        link_opt_view(r) == link_of(views(entries@), d@, u@, fieldlike),
{
    if u.within.len() == 0 {
        if fieldlike && !has_name(&d.generics, u.name.as_slice()) && (kind_known(
            entries,
            u.name.as_slice(),
            DeclKind::Struct,
        ) || kind_known(entries, u.name.as_slice(), DeclKind::Enum)) {
            Some(
                TypeLink {
                    kind: EdgeKind::Contains,
                    owner: copy_bytes(&d.name),
                    target: copy_bytes(&u.name),
                    argument: Vec::new(),
                    placeholder: false,
                },
            )
        } else {
            None
        }
    } else if !has_name(&d.generics, u.within.as_slice()) && name_known(
        entries,
        u.within.as_slice(),
    ) {
        Some(
            TypeLink {
                kind: EdgeKind::Instantiates,
                owner: copy_bytes(&d.name),
                target: copy_bytes(&u.within),
                argument: copy_bytes(&u.name),
                placeholder: has_name(&d.generics, u.name.as_slice()),
            },
        )
    } else {
        None
    }
}

fn add_use_links(
    entries: &Vec<SymbolEntry>,
    d: &DeclarationNode,
    uses: &Vec<TypeUse>,
    fieldlike: bool,
    links: &mut Vec<TypeLink>,
)
    ensures
        views(final(links)@) == use_links(
            views(entries@),
            d@,
            views(uses@),
            0,
            fieldlike,
            views(old(links)@),
        ),
{
    let mut k: usize = 0;
    while k < uses.len()
        invariant
            k <= uses.len(),
            use_links(views(entries@), d@, views(uses@), k as int, fieldlike, views(links@))
                == use_links(views(entries@), d@, views(uses@), 0, fieldlike, views(old(links)@)),
        decreases uses.len() - k,
    {
        match link_for(entries, d, &uses[k], fieldlike) {
            Some(l) => {
                links.push(l);
            },
            None => {},
        }
        k += 1;
    }
}

fn add_decl_links(entries: &Vec<SymbolEntry>, d: &DeclarationNode, links: &mut Vec<TypeLink>)
    ensures
        views(final(links)@) == decl_links(views(entries@), d@, views(old(links)@)),
{
    add_use_links(entries, d, &d.types, false, links);
    let mut c: usize = 0;
    while c < d.children.len()
        invariant
            c <= d.children.len(),
            child_links(views(entries@), d@, c as int, views(links@)) == decl_links(
                views(entries@),
                d@,
                views(old(links)@),
            ),
        decreases d.children.len() - c,
    {
        let child = &d.children[c];
        add_use_links(entries, d, &child.types, child.kind != ChildKind::Method, links);
        c += 1;
    }
}

fn method_declared(d: &DeclarationNode, name: &[u8]) -> (r: bool)
    ensures
        r == has_method(d@, name@),
{
    let mut k: usize = 0;
    while k < d.children.len()
        invariant
            k <= d.children.len(),
            forall|j: int|
                0 <= j < k ==> !((#[trigger] d@.children[j]).kind == ChildKind::Method
                    && d@.children[j].name == name@),
        decreases d.children.len() - k,
    {
        if d.children[k].kind == ChildKind::Method && same_bytes(
            d.children[k].name.as_slice(),
            name,
        ) {
            assert(d@.children[k as int].kind == ChildKind::Method && d@.children[k as int].name
                == name@);
            return true;
        }
        k += 1;
    }
    false
}

fn check_satisfies(tr: &DeclarationNode, im: &DeclarationNode) -> (r: bool)
    ensures
        r == satisfies(tr@, im@),
{
    let mut k: usize = 0;
    while k < tr.children.len()
        invariant
            k <= tr.children.len(),
            forall|j: int|
                0 <= j < k && (#[trigger] tr@.children[j]).kind == ChildKind::Method
                    && !tr@.children[j].has_body ==> has_method(im@, tr@.children[j].name),
        decreases tr.children.len() - k,
    {
        let child = &tr.children[k];
        if child.kind == ChildKind::Method && !child.has_body && !method_declared(
            im,
            child.name.as_slice(),
        ) {
            assert(tr@.children[k as int].kind == ChildKind::Method);
            return false;
        }
        k += 1;
    }
    true
}

/// Resolves a tree of declarations in two passes. The first registers every
/// struct, enum, trait, function and type alias under its name; a name that
/// is declared again is reported, and the first definition stays. The
/// second resolves what implementations refer to and links each declaration
/// to the registered types that it uses; a reference that is not found is
/// reported and resolution goes on.
pub fn resolve(cst: &Cst) -> (r: (SymbolTable, Vec<ResolutionError>))
    ensures
        r.0@ == resolved(cst@).0,
        views(r.1@) == resolved(cst@).1,
{
    let decls = &cst.declarations;
    let mut entries: Vec<SymbolEntry> = Vec::new();
    let mut errors: Vec<ResolutionError> = Vec::new();
    let mut i: usize = 0;
    while i < decls.len()
        invariant
            i <= decls.len(),
            forall|k: int| 0 <= k < entries.len() ==> entries@[k].declaration < decls.len(),
            register(views(decls@), i as int, views(entries@), views(errors@)) == register(
                views(decls@),
                0,
                Seq::empty(),
                Seq::empty(),
            ),
        decreases decls.len() - i,
    {
        let d = &decls[i];
        if d.kind != DeclKind::Implementation {
            if name_known(&entries, d.name.as_slice()) {
                errors.push(make_problem(ResolutionErrorKind::DuplicateSymbol, &d.name, d, i));
            } else {
                entries.push(
                    SymbolEntry {
                        name: copy_bytes(&d.name),
                        kind: d.kind,
                        declaration: i,
                        visibility: d.visibility,
                    },
                );
            }
        }
        i += 1;
    }
    let ghost first_errors = views(errors@);
    let mut edges: Vec<ImplementationEdge> = Vec::new();
    let mut links: Vec<TypeLink> = Vec::new();
    let mut i: usize = 0;
    while i < decls.len()
        invariant
            i <= decls.len(),
            forall|k: int| 0 <= k < entries.len() ==> entries@[k].declaration < decls.len(),
            link(
                views(decls@),
                views(entries@),
                i as int,
                views(edges@),
                views(links@),
                views(errors@),
            ) == link(
                views(decls@),
                views(entries@),
                0,
                Seq::empty(),
                Seq::empty(),
                first_errors,
            ),
        decreases decls.len() - i,
    {
        let d = &decls[i];
        if d.kind == DeclKind::Implementation {
            let target_ok = name_known(&entries, d.name.as_slice());
            let generic = has_name(&d.generics, d.name.as_slice());
            match &d.trait_name {
                Some(tn) => {
                    match find(&entries, tn.as_slice()) {
                        Some(k) => {
                            if entries[k].kind != DeclKind::Trait {
                                errors.push(
                                    make_problem(
                                        ResolutionErrorKind::UnresolvedReference,
                                        tn,
                                        d,
                                        i,
                                    ),
                                );
                            } else if target_ok && !generic {
                                let tr = &decls[entries[k].declaration];
                                edges.push(
                                    ImplementationEdge {
                                        implementor: copy_bytes(&d.name),
                                        trait_name: copy_bytes(tn),
                                        declaration: i,
                                        valid: check_satisfies(tr, d),
                                    },
                                );
                            }
                        },
                        None => {
                            errors.push(
                                make_problem(ResolutionErrorKind::UnresolvedReference, tn, d, i),
                            );
                        },
                    }
                },
                None => {},
            }
            if !(target_ok || generic) {
                errors.push(make_problem(ResolutionErrorKind::UnresolvedReference, &d.name, d, i));
            }
            if target_ok && !generic {
                add_decl_links(&entries, d, &mut links);
            }
        } else {
            let own = match find(&entries, d.name.as_slice()) {
                Some(k) => entries[k].declaration == i,
                None => false,
            };
            if own {
                add_decl_links(&entries, d, &mut links);
            }
        }
        i += 1;
    }
    (SymbolTable { entries, implementations: edges, links }, errors)
}

} // verus!
