//! The concrete syntax tree of declarations.

use vstd::prelude::*;
use crate::text::{views, opt_view};
use crate::token::{Token, TokenView};

verus! {

/// A type named inside a declared type or a signature. `within` names the
/// generic type whose argument list holds the use; it is empty for a use
/// that stands outside every argument list.
#[derive(Clone, Debug, PartialEq, Eq)]
pub struct TypeUse {
    pub name: Vec<u8>,
    pub within: Vec<u8>,
}

/// The mathematical model of a [`TypeUse`].
pub struct TypeUseView {
    pub name: Seq<u8>,
    pub within: Seq<u8>,
}

impl View for TypeUse {
    type V = TypeUseView;

    open spec fn view(&self) -> TypeUseView {
        TypeUseView { name: self.name@, within: self.within@ }
    }
}

/// What a child of a declaration is.
#[derive(Clone, Copy, Debug, PartialEq, Eq, Structural)]
pub enum ChildKind {
    Field,
    Variant,
    Method,
}

/// A field, an enum variant or a method. Tuple fields have an empty name.
/// A variant keeps the text of its explicit discriminant. A method with a
/// body keeps the byte span of that body, which is never looked into.
#[derive(Clone, Debug, PartialEq, Eq)]
pub struct ChildNode {
    pub kind: ChildKind,
    pub name: Vec<u8>,
    pub types: Vec<TypeUse>,
    pub discriminant: Option<Vec<u8>>,
    pub has_body: bool,
    pub body_start: usize,
    pub body_end: usize,
}

/// The mathematical model of a [`ChildNode`].
pub struct ChildView {
    pub kind: ChildKind,
    pub name: Seq<u8>,
    pub types: Seq<TypeUseView>,
    pub discriminant: Option<Seq<u8>>,
    pub has_body: bool,
    pub body_start: usize,
    pub body_end: usize,
}

impl View for ChildNode {
    type V = ChildView;

    open spec fn view(&self) -> ChildView {
        ChildView {
            kind: self.kind,
            name: self.name@,
            types: views(self.types@),
            discriminant: opt_view(self.discriminant),
            has_body: self.has_body,
            body_start: self.body_start,
            body_end: self.body_end,
        }
    }
}

/// The variant of a declaration.
#[derive(Clone, Copy, Debug, PartialEq, Eq, Structural)]
pub enum DeclKind {
    Struct,
    Enum,
    Trait,
    Implementation,
    Function,
    TypeAlias,
}

/// How far a declaration is visible.
#[derive(Clone, Copy, Debug, PartialEq, Eq, Structural)]
pub enum Visibility {
    Private,
    Public,
    Restricted,
}

/// A declaration. An implementation is named after the type it targets and
/// keeps the name of the trait it implements, both unresolved.
#[derive(Clone, Debug, PartialEq, Eq)]
pub struct DeclarationNode {
    pub kind: DeclKind,
    pub name: Vec<u8>,
    pub children: Vec<ChildNode>,
    pub generics: Vec<Vec<u8>>,
    pub markers: Vec<Vec<u8>>,
    pub types: Vec<TypeUse>,
    pub trait_name: Option<Vec<u8>>,
    pub visibility: Visibility,
    pub docs: Vec<u8>,
    pub offset: usize,
    pub line: usize,
    pub column: usize,
}

/// The mathematical model of a [`DeclarationNode`].
pub struct DeclView {
    pub kind: DeclKind,
    pub name: Seq<u8>,
    pub children: Seq<ChildView>,
    pub generics: Seq<Seq<u8>>,
    pub markers: Seq<Seq<u8>>,
    pub types: Seq<TypeUseView>,
    pub trait_name: Option<Seq<u8>>,
    pub visibility: Visibility,
    pub docs: Seq<u8>,
    pub offset: usize,
    pub line: usize,
    pub column: usize,
}

impl View for DeclarationNode {
    type V = DeclView;

    open spec fn view(&self) -> DeclView {
        DeclView {
            kind: self.kind,
            name: self.name@,
            children: views(self.children@),
            generics: views(self.generics@),
            markers: views(self.markers@),
            types: views(self.types@),
            trait_name: opt_view(self.trait_name),
            visibility: self.visibility,
            docs: self.docs@,
            offset: self.offset,
            line: self.line,
            column: self.column,
        }
    }
}

impl DeclView {
    /// The set of generic-parameter names of the declaration.
    pub open spec fn generic_names(self) -> Set<Seq<u8>> {
        self.generics.to_set()
    }

    /// The set of capability markers attached to the declaration.
    pub open spec fn marker_names(self) -> Set<Seq<u8>> {
        self.markers.to_set()
    }
}

/// The declarations of one source text, in source order, and the tokens
/// that they were parsed from, comments among them. The view of a tree is
/// the sequence of its declarations.
#[derive(Clone, Debug, PartialEq, Eq)]
pub struct Cst {
    pub declarations: Vec<DeclarationNode>,
    pub tokens: Vec<Token>,
}

impl View for Cst {
    type V = Seq<DeclView>;

    open spec fn view(&self) -> Seq<DeclView> {
        views(self.declarations@)
    }
}

impl Cst {
    /// The tokens that the tree was parsed from.
    pub open spec fn source(&self) -> Seq<TokenView> {
        views(self.tokens@)
    }
}

/// Why a declaration was rejected.
#[derive(Clone, Copy, Debug, PartialEq, Eq, Structural)]
pub enum ParseErrorKind {
    /// No declaration starts here.
    ExpectedDeclaration,
    /// A name was expected.
    ExpectedName,
    /// A body, or the semicolon that stands for one, was expected.
    ExpectedBody,
    /// A field was expected.
    ExpectedField,
    /// An enum variant was expected.
    ExpectedVariant,
    /// A method, an associated type or an associated constant was expected.
    ExpectedMember,
    /// A literal was expected after the `=` of a variant.
    ExpectedDiscriminant,
    /// A bracket is never closed.
    UnclosedDelimiter,
    /// A token that cannot stand here.
    UnexpectedToken,
}

/// A rejected declaration: the reason and the position of the token at
/// which parsing failed.
#[derive(Clone, Copy, Debug, PartialEq, Eq, Structural)]
pub struct ParseError {
    pub reason: ParseErrorKind,
    pub offset: usize,
    pub line: usize,
    pub column: usize,
}

} // verus!
