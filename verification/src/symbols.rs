//! Symbol tables: what resolution makes of a tree of declarations.

use vstd::prelude::*;
use crate::text::views;
use crate::syntax::{DeclKind, Visibility};

verus! {

/// A named declaration. `declaration` is the index of the defining node in
/// the tree; it serves to look the node up and owns nothing.
#[derive(Clone, Debug, PartialEq, Eq)]
pub struct SymbolEntry {
    pub name: Vec<u8>,
    pub kind: DeclKind,
    pub declaration: usize,
    pub visibility: Visibility,
}

/// The mathematical model of a [`SymbolEntry`].
pub struct SymbolView {
    pub name: Seq<u8>,
    pub kind: DeclKind,
    pub declaration: usize,
    pub visibility: Visibility,
}

impl View for SymbolEntry {
    type V = SymbolView;

    open spec fn view(&self) -> SymbolView {
        SymbolView {
            name: self.name@,
            kind: self.kind,
            declaration: self.declaration,
            visibility: self.visibility,
        }
    }
}

/// An implementation of a trait for a type, both resolved. `valid` says
/// that the implementation declares every method that the trait requires.
#[derive(Clone, Debug, PartialEq, Eq)]
pub struct ImplementationEdge {
    pub implementor: Vec<u8>,
    pub trait_name: Vec<u8>,
    pub declaration: usize,
    pub valid: bool,
}

/// The mathematical model of an [`ImplementationEdge`].
pub struct ImplementationView {
    pub implementor: Seq<u8>,
    pub trait_name: Seq<u8>,
    pub declaration: usize,
    pub valid: bool,
}

impl View for ImplementationEdge {
    type V = ImplementationView;

    open spec fn view(&self) -> ImplementationView {
        ImplementationView {
            implementor: self.implementor@,
            trait_name: self.trait_name@,
            declaration: self.declaration,
            valid: self.valid,
        }
    }
}

/// The kinds of edges of a symbol graph.
#[derive(Clone, Copy, Debug, PartialEq, Eq, Structural)]
pub enum EdgeKind {
    Implements,
    Contains,
    Instantiates,
}

/// A use of a known type by a declaration: a field or variant of that type
/// (`Contains`), or an argument list applied to it (`Instantiates`, one link
/// for each argument, which `argument` names). `placeholder` says that the
/// argument is a generic parameter of the owner.
#[derive(Clone, Debug, PartialEq, Eq)]
pub struct TypeLink {
    pub kind: EdgeKind,
    pub owner: Vec<u8>,
    pub target: Vec<u8>,
    pub argument: Vec<u8>,
    pub placeholder: bool,
}

/// The mathematical model of a [`TypeLink`].
pub struct LinkView {
    pub kind: EdgeKind,
    pub owner: Seq<u8>,
    pub target: Seq<u8>,
    pub argument: Seq<u8>,
    pub placeholder: bool,
}

impl View for TypeLink {
    type V = LinkView;

    open spec fn view(&self) -> LinkView {
        LinkView {
            kind: self.kind,
            owner: self.owner@,
            target: self.target@,
            argument: self.argument@,
            placeholder: self.placeholder,
        }
    }
}

/// The symbols of one scope with the relations found between them.
#[derive(Clone, Debug, PartialEq, Eq)]
pub struct SymbolTable {
    pub entries: Vec<SymbolEntry>,
    pub implementations: Vec<ImplementationEdge>,
    pub links: Vec<TypeLink>,
}

/// The mathematical model of a [`SymbolTable`].
pub struct TableView {
    pub entries: Seq<SymbolView>,
    pub implementations: Seq<ImplementationView>,
    pub links: Seq<LinkView>,
}

impl View for SymbolTable {
    type V = TableView;

    open spec fn view(&self) -> TableView {
        TableView {
            entries: views(self.entries@),
            implementations: views(self.implementations@),
            links: views(self.links@),
        }
    }
}

/// What went wrong in resolution.
#[derive(Clone, Copy, Debug, PartialEq, Eq, Structural)]
pub enum ResolutionErrorKind {
    /// A name is declared a second time in its scope.
    DuplicateSymbol,
    /// An implementation names a type or a trait that is not declared.
    UnresolvedReference,
}

/// A resolution error: the name, and the index and position of the
/// declaration that holds it.
#[derive(Clone, Debug, PartialEq, Eq)]
pub struct ResolutionError {
    pub kind: ResolutionErrorKind,
    pub name: Vec<u8>,
    pub declaration: usize,
    pub offset: usize,
    pub line: usize,
    pub column: usize,
}

/// The mathematical model of a [`ResolutionError`].
pub struct ResolutionErrorView {
    pub kind: ResolutionErrorKind,
    pub name: Seq<u8>,
    pub declaration: usize,
    pub offset: usize,
    pub line: usize,
    pub column: usize,
}

impl View for ResolutionError {
    type V = ResolutionErrorView;

    open spec fn view(&self) -> ResolutionErrorView {
        ResolutionErrorView {
            kind: self.kind,
            name: self.name@,
            declaration: self.declaration,
            offset: self.offset,
            line: self.line,
            column: self.column,
        }
    }
}

/// The index of the first entry from `i` on that has the given name.
pub open spec fn find_from(entries: Seq<SymbolView>, name: Seq<u8>, i: int) -> Option<int>
    decreases entries.len() - i,
{
    if i < 0 || i >= entries.len() {
        None
    } else if entries[i].name == name {
        Some(i)
    } else {
        find_from(entries, name, i + 1)
    }
}

/// The index of the entry that has the given name.
pub open spec fn lookup(entries: Seq<SymbolView>, name: Seq<u8>) -> Option<int> {
    find_from(entries, name, 0)
}

/// Whether a name is registered.
pub open spec fn known(entries: Seq<SymbolView>, name: Seq<u8>) -> bool {
    lookup(entries, name) is Some
}

/// Whether a name is registered for a declaration of the given kind.
pub open spec fn is_kind(entries: Seq<SymbolView>, name: Seq<u8>, kind: DeclKind) -> bool {
    match lookup(entries, name) {
        Some(k) => entries[k].kind == kind,
        None => false,
    }
}

/// A search finds an entry of the given name at or after its start, and
/// finds nothing only where no such entry is.
pub proof fn lemma_find_from(entries: Seq<SymbolView>, name: Seq<u8>, i: int)
    requires
        0 <= i,
    ensures
        match find_from(entries, name, i) {
            Some(k) => i <= k < entries.len() && entries[k].name == name && forall|j: int|
                i <= j < k ==> entries[j].name != name,
            None => forall|j: int| i <= j < entries.len() ==> entries[j].name != name,
        },
    decreases entries.len() - i,
{
    if i < entries.len() && entries[i].name != name {
        lemma_find_from(entries, name, i + 1);
    }
}

/// The index of the entry that has the given name.
pub fn find(entries: &Vec<SymbolEntry>, name: &[u8]) -> (r: Option<usize>)
    ensures
        match r {
            Some(k) => lookup(views(entries@), name@) == Some(k as int) && k < entries.len()
                && entries[k as int].name@ == name@,
            None => lookup(views(entries@), name@) is None,
        },
{
    let mut i: usize = 0;
    while i < entries.len()
        invariant
            i <= entries.len(),
            find_from(views(entries@), name@, i as int) == lookup(views(entries@), name@),
        decreases entries.len() - i,
    {
        if crate::text::same_bytes(entries[i].name.as_slice(), name) {
            return Some(i);
        }
        i += 1;
    }
    None
}

impl SymbolTable {
    /// The entry that has the given name, if the name is registered.
    pub fn get(&self, name: &[u8]) -> (r: Option<&SymbolEntry>)
        ensures
            match r {
                Some(e) => lookup(self@.entries, name@) matches Some(k) && e@ == self@.entries[k],
                None => !known(self@.entries, name@),
            },
    {
        match find(&self.entries, name) {
            Some(k) => Some(&self.entries[k]),
            None => None,
        }
    }
}

} // verus!
