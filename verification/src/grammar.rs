//! The declaration grammar, as functions on sequences of tokens. Every
//! function reads the significant tokens `t` from an index on and gives what
//! it recognised together with the index at which it stopped.

use vstd::prelude::*;
use vstd::string::StringSliceAdditionalSpecFns;
use crate::token::{TokenKind, TokenView};
use crate::syntax::{
    ChildKind, ChildView, DeclKind, DeclView, ParseError, ParseErrorKind, TypeUseView, Visibility,
};

verus! {

/// Whether a comment documents the item that follows it: `///` and `//!`
/// lines, `/**` and `/*!` blocks.
pub open spec fn is_doc_comment(w: Seq<u8>) -> bool {
    &&& w.len() >= 3
    &&& w[0] == 47
    &&& {
        ||| w[1] == 47 && w[2] == 33
        ||| w[1] == 47 && w[2] == 47 && !(w.len() >= 4 && w[3] == 47)
        ||| w[1] == 42 && w[2] == 33
        ||| w[1] == 42 && w[2] == 42 && !(w.len() >= 4 && (w[3] == 42 || w[3] == 47))
    }
}

/// Whether the parser reads a token. Plain comments are dropped.
pub open spec fn is_significant(tok: TokenView) -> bool {
    tok.kind != TokenKind::Comment || is_doc_comment(tok.text)
}

/// The tokens that the parser reads.
pub open spec fn significant(tokens: Seq<TokenView>) -> Seq<TokenView> {
    tokens.filter(|tok: TokenView| is_significant(tok))
}

/// Whether the token at `i` spells `s`.
pub open spec fn at(t: Seq<TokenView>, i: int, s: &str) -> bool {
    0 <= i < t.len() && t[i].text == s.spec_bytes()
}

/// Whether the token at `i` is of kind `k`.
pub open spec fn kind_at(t: Seq<TokenView>, i: int, k: TokenKind) -> bool {
    0 <= i < t.len() && t[i].kind == k
}

/// Whether an opening bracket stands at `i`.
pub open spec fn opens(t: Seq<TokenView>, i: int) -> bool {
    at(t, i, "(") || at(t, i, "[") || at(t, i, "{")
}

/// Whether a closing bracket stands at `i`.
pub open spec fn closes(t: Seq<TokenView>, i: int) -> bool {
    at(t, i, ")") || at(t, i, "]") || at(t, i, "}")
}

/// A failure: the reason and the index of the offending token.
pub type Failure = (ParseErrorKind, int);

/// The index after the bracket that closes a group of which `depth` levels
/// are open at `i`; `None` if the tokens end first.
pub open spec fn group_end(t: Seq<TokenView>, i: int, depth: int) -> Option<int>
    decreases t.len() - i,
{
    if i < 0 || i >= t.len() || depth < 1 {
        None
    } else if opens(t, i) {
        group_end(t, i + 1, depth + 1)
    } else if closes(t, i) {
        if depth == 1 {
            Some(i + 1)
        } else {
            group_end(t, i + 1, depth - 1)
        }
    } else {
        group_end(t, i + 1, depth)
    }
}

/// The names that a generic-parameter list declares and the index after its
/// closing `>`. `i` is inside the list, `depth` angle brackets being open;
/// `fresh` says that a parameter may start at `i`. A parameter's name is the
/// first identifier after the `<` or after a comma of the outermost level;
/// for a lifetime it is the identifier after the apostrophe. `None` if the
/// list is not closed before a `;`, a `{` or the end of the tokens.
pub open spec fn generics_end(
    t: Seq<TokenView>,
    i: int,
    depth: int,
    fresh: bool,
    acc: Seq<Seq<u8>>,
) -> Option<(Seq<Seq<u8>>, int)>
    decreases t.len() - i,
{
    if i < 0 || i >= t.len() || depth < 1 || at(t, i, ";") || at(t, i, "{") {
        None
    } else if at(t, i, ">") {
        if depth == 1 {
            Some((acc, i + 1))
        } else {
            generics_end(t, i + 1, depth - 1, false, acc)
        }
    } else if at(t, i, "<") {
        generics_end(t, i + 1, depth + 1, false, acc)
    } else if at(t, i, "-") && at(t, i + 1, ">") {
        generics_end(t, i + 2, depth, false, acc)
    } else if opens(t, i) {
        match group_end(t, i + 1, 1) {
            Some(j) => if i < j <= t.len() {
                generics_end(t, j, depth, false, acc)
            } else {
                None
            },
            None => None,
        }
    } else if at(t, i, ",") {
        generics_end(t, i + 1, depth, depth == 1, acc)
    } else if fresh && (at(t, i, "'") || at(t, i, "const")) {
        generics_end(t, i + 1, depth, true, acc)
    } else if fresh && kind_at(t, i, TokenKind::Identifier) {
        generics_end(t, i + 1, depth, false, acc.push(t[i].text))
    } else {
        generics_end(t, i + 1, depth, false, acc)
    }
}

/// The generic parameters declared at `i`, if a list starts there. A `<`
/// opens a list only right after the name or keyword that may take one, so
/// one token of lookahead tells it from a comparison, which stands only in
/// bodies that the parser passes over.
pub open spec fn generics_opt(t: Seq<TokenView>, i: int) -> Option<(Seq<Seq<u8>>, int)> {
    if at(t, i, "<") {
        generics_end(t, i + 1, 1, true, Seq::empty())
    } else {
        Some((Seq::empty(), i))
    }
}

/// Whether the token at `i` ends a type that no bracket encloses. A comma
/// ends a type that stands in a list; between the bounds of a `where`
/// clause it ends nothing.
pub open spec fn ends_type(t: Seq<TokenView>, i: int, list: bool) -> bool {
    (list && at(t, i, ",")) || at(t, i, ";") || at(t, i, "=") || at(t, i, ">") || at(t, i, "{")
        || closes(t, i)
}

/// The generic type whose argument list is innermost, or the empty name.
pub open spec fn enclosing(stack: Seq<Seq<u8>>) -> Seq<u8> {
    if stack.len() > 0 {
        stack.last()
    } else {
        Seq::empty()
    }
}

/// The types named from `i` up to the token that ends the type or the
/// signature, and the index of that token. `stack` holds, for each open
/// bracket, the generic type whose arguments it encloses (a round, square
/// or curly bracket repeats the one around it); `last` is the identifier
/// read last. An identifier followed by a colon is a binding or a path
/// prefix, one followed by an equals sign is the name of an associated
/// type; neither names a type. An identifier after an apostrophe is a
/// lifetime.
pub open spec fn type_uses(
    t: Seq<TokenView>,
    i: int,
    list: bool,
    stack: Seq<Seq<u8>>,
    last: Seq<u8>,
    acc: Seq<TypeUseView>,
) -> (Seq<TypeUseView>, int)
    decreases t.len() - i,
{
    if i < 0 || i >= t.len() {
        (acc, i)
    } else if stack.len() == 0 && ends_type(t, i, list) {
        (acc, i)
    } else if at(t, i, "-") && at(t, i + 1, ">") {
        type_uses(t, i + 2, list, stack, last, acc)
    } else if at(t, i, "<") {
        type_uses(t, i + 1, list, stack.push(last), last, acc)
    } else if opens(t, i) {
        type_uses(t, i + 1, list, stack.push(enclosing(stack)), last, acc)
    } else if at(t, i, ">") || closes(t, i) {
        type_uses(t, i + 1, list, stack.drop_last(), last, acc)
    } else if at(t, i, "'") && kind_at(t, i + 1, TokenKind::Identifier) {
        type_uses(t, i + 2, list, stack, last, acc)
    } else if kind_at(t, i, TokenKind::Identifier) && !at(t, i + 1, ":") && !at(t, i + 1, "=") {
        type_uses(
            t,
            i + 1,
            list,
            stack,
            t[i].text,
            acc.push(TypeUseView { name: t[i].text, within: enclosing(stack) }),
        )
    } else {
        type_uses(t, i + 1, list, stack, last, acc)
    }
}

/// The types named in a header or a signature from `i` on, up to the body
/// or the semicolon: a `where` clause is read through.
pub open spec fn header_uses(t: Seq<TokenView>, i: int) -> (Seq<TypeUseView>, int) {
    type_uses(t, i, false, Seq::empty(), Seq::empty(), Seq::empty())
}

/// The types named in the type of a field from `i` on, up to the comma or
/// the bracket that ends the field.
pub open spec fn field_uses(t: Seq<TokenView>, i: int) -> (Seq<TypeUseView>, int) {
    type_uses(t, i, true, Seq::empty(), Seq::empty(), Seq::empty())
}

/// The types named inside a bracket that opens just before `i`, and after it
/// up to the token that ends the member.
pub open spec fn payload_uses(t: Seq<TokenView>, i: int) -> (Seq<TypeUseView>, int) {
    type_uses(t, i, true, seq![Seq::empty()], Seq::empty(), Seq::empty())
}

/// Whether a documentation comment stands at `i`.
pub open spec fn doc_at(t: Seq<TokenView>, i: int) -> bool {
    kind_at(t, i, TokenKind::Comment)
}

/// The index after the attribute whose `#` is at `i`; `None` if no bracket
/// follows or the bracket is never closed.
pub open spec fn attribute_end(t: Seq<TokenView>, i: int) -> Option<int> {
    let k = attribute_bracket(t, i);
    if at(t, k, "[") {
        group_end(t, k + 1, 1)
    } else {
        None
    }
}

/// The index at which the bracket of the attribute at `i` is expected.
pub open spec fn attribute_bracket(t: Seq<TokenView>, i: int) -> int {
    if at(t, i + 1, "!") {
        i + 2
    } else {
        i + 1
    }
}

/// The index after the visibility that starts with the `pub` at `i`.
pub open spec fn visibility_end(t: Seq<TokenView>, i: int) -> int {
    if at(t, i + 1, "(") {
        match group_end(t, i + 2, 1) {
            Some(j) => j,
            None => i + 1,
        }
    } else {
        i + 1
    }
}

/// Whether the `const` at `i` qualifies a function.
pub open spec fn const_fn_at(t: Seq<TokenView>, i: int) -> bool {
    at(t, i, "const") && (at(t, i + 1, "fn") || at(t, i + 1, "unsafe") || at(t, i + 1, "async")
        || at(t, i + 1, "extern"))
}

/// The index after the qualifiers (`const`, `async`, `unsafe`, `extern` and
/// its ABI string) that start at `i`.
pub open spec fn qualifiers_end(t: Seq<TokenView>, i: int) -> int
    decreases t.len() - i,
{
    if i < 0 || i >= t.len() {
        i
    } else if at(t, i, "unsafe") || at(t, i, "async") || const_fn_at(t, i) {
        qualifiers_end(t, i + 1)
    } else if at(t, i, "extern") {
        if kind_at(t, i + 1, TokenKind::Literal) {
            qualifiers_end(t, i + 2)
        } else {
            qualifiers_end(t, i + 1)
        }
    } else {
        i
    }
}

/// The index after an item that the tree does not hold (an import, a
/// module, a constant): after its semicolon or after its braced body.
pub open spec fn item_end(t: Seq<TokenView>, i: int) -> int
    decreases t.len() - i,
{
    if i < 0 || i >= t.len() {
        i
    } else if at(t, i, ";") {
        i + 1
    } else if opens(t, i) {
        match group_end(t, i + 1, 1) {
            Some(j) => if j <= i || j > t.len() || at(t, i, "{") {
                j
            } else {
                item_end(t, j)
            },
            None => t.len() as int,
        }
    } else {
        item_end(t, i + 1)
    }
}

/// The shape of a body, which decides what its members are.
#[derive(Clone, Copy, Debug, PartialEq, Eq, Structural)]
pub enum BodyMode {
    /// Named fields between braces.
    Fields,
    /// Positional fields between round brackets.
    Tuple,
    /// Enum variants.
    Variants,
    /// Methods, associated types and associated constants.
    Methods,
}

/// A field `name: Type`.
pub open spec fn field(t: Seq<TokenView>, i: int) -> Result<(Option<ChildView>, int), Failure> {
    if kind_at(t, i, TokenKind::Identifier) && at(t, i + 1, ":") {
        let (uses, j) = field_uses(t, i + 2);
        Ok((Some(child(ChildKind::Field, t[i].text, uses)), j))
    } else {
        Err((ParseErrorKind::ExpectedField, i))
    }
}

/// A positional field: a type.
pub open spec fn tuple_field(t: Seq<TokenView>, i: int) -> Result<
    (Option<ChildView>, int),
    Failure,
> {
    let (uses, j) = field_uses(t, i);
    if j > i {
        Ok((Some(child(ChildKind::Field, Seq::empty(), uses)), j))
    } else {
        Err((ParseErrorKind::ExpectedField, i))
    }
}

/// A child without discriminant or body.
pub open spec fn child(kind: ChildKind, name: Seq<u8>, types: Seq<TypeUseView>) -> ChildView {
    ChildView {
        kind,
        name,
        types,
        discriminant: None,
        has_body: false,
        body_start: 0,
        body_end: 0,
    }
}

/// An enum variant: a name, an optional payload between round or curly
/// brackets and an optional discriminant, a literal that a minus sign may
/// precede. The discriminant is kept as written.
pub open spec fn variant(t: Seq<TokenView>, i: int) -> Result<(Option<ChildView>, int), Failure> {
    if !kind_at(t, i, TokenKind::Identifier) {
        Err((ParseErrorKind::ExpectedVariant, i))
    } else {
        let (uses, j) = if at(t, i + 1, "(") || at(t, i + 1, "{") {
            payload_uses(t, i + 2)
        } else {
            (Seq::empty(), i + 1)
        };
        let plain = child(ChildKind::Variant, t[i].text, uses);
        if !at(t, j, "=") {
            Ok((Some(plain), j))
        } else if kind_at(t, j + 1, TokenKind::Literal) {
            Ok((Some(ChildView { discriminant: Some(t[j + 1].text), ..plain }), j + 2))
        } else if at(t, j + 1, "-") && kind_at(t, j + 2, TokenKind::Literal) {
            Ok(
                (
                    Some(
                        ChildView {
                            discriminant: Some(t[j + 1].text + t[j + 2].text),
                            ..plain
                        },
                    ),
                    j + 3,
                ),
            )
        } else {
            Err((ParseErrorKind::ExpectedDiscriminant, j + 1))
        }
    }
}

/// The index after the last byte of the token at `i`.
pub open spec fn token_end(t: Seq<TokenView>, i: int) -> usize {
    if t[i].offset + t[i].text.len() <= usize::MAX {
        (t[i].offset + t[i].text.len()) as usize
    } else {
        usize::MAX
    }
}

/// A member of a trait or of an implementation. A method gives a child,
/// with the span of its body if it has one; an associated type or constant
/// is passed over.
pub open spec fn method(t: Seq<TokenView>, i: int) -> Result<(Option<ChildView>, int), Failure> {
    let q = qualifiers_end(t, i);
    if at(t, q, "type") || at(t, q, "const") {
        Ok((None, item_end(t, q + 1)))
    } else if !at(t, q, "fn") {
        Err((ParseErrorKind::ExpectedMember, q))
    } else if !kind_at(t, q + 1, TokenKind::Identifier) {
        Err((ParseErrorKind::ExpectedName, q + 1))
    } else {
        let (uses, j) = header_uses(t, q + 2);
        let plain = child(ChildKind::Method, t[q + 1].text, uses);
        if at(t, j, ";") {
            Ok((Some(plain), j + 1))
        } else if at(t, j, "{") {
            match group_end(t, j + 1, 1) {
                Some(e) => Ok(
                    (
                        Some(
                            ChildView {
                                has_body: true,
                                body_start: t[j].offset,
                                body_end: token_end(t, e - 1),
                                ..plain
                            },
                        ),
                        e,
                    ),
                ),
                None => Err((ParseErrorKind::UnclosedDelimiter, j)),
            }
        } else {
            Err((ParseErrorKind::ExpectedBody, j))
        }
    }
}

/// The member that starts at `i` in a body of the given shape.
pub open spec fn member(t: Seq<TokenView>, i: int, mode: BodyMode) -> Result<
    (Option<ChildView>, int),
    Failure,
> {
    match mode {
        BodyMode::Fields => field(t, i),
        BodyMode::Tuple => tuple_field(t, i),
        BodyMode::Variants => variant(t, i),
        BodyMode::Methods => method(t, i),
    }
}

/// `acc` with the child, if there is one.
pub open spec fn with_child(acc: Seq<ChildView>, c: Option<ChildView>) -> Seq<ChildView> {
    match c {
        Some(c) => acc.push(c),
        None => acc,
    }
}

/// The members of a body from `i` up to its closing bracket, and the index
/// after that bracket. Commas, documentation comments, attributes and
/// visibilities between the members are passed over.
pub open spec fn members(t: Seq<TokenView>, i: int, mode: BodyMode, acc: Seq<ChildView>) -> Result<
    (Seq<ChildView>, int),
    Failure,
>
    decreases t.len() - i,
{
    if i < 0 || i >= t.len() {
        Err((ParseErrorKind::UnclosedDelimiter, i))
    } else if closes(t, i) {
        Ok((acc, i + 1))
    } else if at(t, i, ",") || doc_at(t, i) {
        members(t, i + 1, mode, acc)
    } else if at(t, i, "#") {
        match attribute_end(t, i) {
            Some(j) => if i < j <= t.len() {
                members(t, j, mode, acc)
            } else {
                Err((ParseErrorKind::UnexpectedToken, i))
            },
            None => Err((ParseErrorKind::UnexpectedToken, i)),
        }
    } else if at(t, i, "pub") {
        let j = visibility_end(t, i);
        if i < j <= t.len() {
            members(t, j, mode, acc)
        } else {
            Err((ParseErrorKind::UnexpectedToken, i))
        }
    } else {
        match member(t, i, mode) {
            Ok((c, j)) => if i < j <= t.len() {
                members(t, j, mode, with_child(acc, c))
            } else {
                Err((ParseErrorKind::UnexpectedToken, i))
            },
            Err(e) => Err(e),
        }
    }
}

/// The identifiers among `t[i..to]`.
pub open spec fn idents_in(t: Seq<TokenView>, i: int, to: int, acc: Seq<Seq<u8>>) -> Seq<Seq<u8>>
    decreases to - i,
{
    if i < 0 || i >= to || i >= t.len() {
        acc
    } else if t[i].kind == TokenKind::Identifier {
        idents_in(t, i + 1, to, acc.push(t[i].text))
    } else {
        idents_in(t, i + 1, to, acc)
    }
}

/// The capability markers that the attribute at `i`, which ends at `j`,
/// attaches: the names listed by a `derive`.
pub open spec fn derived(t: Seq<TokenView>, i: int, j: int, acc: Seq<Seq<u8>>) -> Seq<Seq<u8>> {
    let k = attribute_bracket(t, i);
    if at(t, k + 1, "derive") {
        idents_in(t, k + 2, j, acc)
    } else {
        acc
    }
}

/// What precedes a declaration: documentation comments, whose text is
/// gathered line by line, and attributes, whose derived names are gathered.
pub open spec fn prefix(t: Seq<TokenView>, i: int, docs: Seq<u8>, markers: Seq<Seq<u8>>) -> Result<
    (Seq<u8>, Seq<Seq<u8>>, int),
    Failure,
>
    decreases t.len() - i,
{
    if doc_at(t, i) {
        prefix(t, i + 1, docs + t[i].text + seq![10u8], markers)
    } else if at(t, i, "#") {
        match attribute_end(t, i) {
            Some(j) => if i < j <= t.len() {
                prefix(t, j, docs, derived(t, i, j, markers))
            } else {
                Err((ParseErrorKind::UnexpectedToken, i))
            },
            None => Err((ParseErrorKind::UnexpectedToken, i)),
        }
    } else {
        Ok((docs, markers, i))
    }
}

/// The name of the type or trait that a path starting at `i` leads to, and
/// the index after the path with its generic arguments. References,
/// `dyn`, `mut`, a negation and lifetimes before the path are passed over.
pub open spec fn path_head(t: Seq<TokenView>, i: int) -> Result<(Seq<u8>, int), Failure>
    decreases t.len() - i,
{
    if i < 0 || i >= t.len() {
        Err((ParseErrorKind::ExpectedName, i))
    } else if (t[i].kind == TokenKind::Identifier || t[i].kind == TokenKind::Keyword) && at(
        t,
        i + 1,
        ":",
    ) && at(t, i + 2, ":") {
        path_head(t, i + 3)
    } else if t[i].kind == TokenKind::Identifier {
        match generics_opt(t, i + 1) {
            Some((_, j)) => Ok((t[i].text, j)),
            None => Err((ParseErrorKind::UnclosedDelimiter, i + 1)),
        }
    } else if at(t, i, "&") || at(t, i, "!") || at(t, i, "mut") || at(t, i, "dyn") {
        path_head(t, i + 1)
    } else if at(t, i, "'") && kind_at(t, i + 1, TokenKind::Identifier) {
        path_head(t, i + 2)
    } else {
        Err((ParseErrorKind::ExpectedName, i))
    }
}

/// What the parser makes of the tokens of one item.
pub enum ItemView {
    /// A declaration, and the index after it.
    Decl(DeclView, int),
    /// An item that the tree does not hold, and the index after it.
    Skip(int),
    /// A malformed declaration.
    Fail(ParseErrorKind, int),
}

/// A declaration of which only what precedes its keyword is known. `q` is
/// the index of the keyword, whose position the declaration takes.
pub open spec fn draft(
    t: Seq<TokenView>,
    q: int,
    docs: Seq<u8>,
    markers: Seq<Seq<u8>>,
    visibility: Visibility,
) -> DeclView {
    DeclView {
        kind: DeclKind::Function,
        name: Seq::empty(),
        children: Seq::empty(),
        generics: Seq::empty(),
        markers,
        types: Seq::empty(),
        trait_name: None,
        visibility,
        docs,
        offset: t[q].offset,
        line: t[q].line,
        column: t[q].column,
    }
}

/// The shape of the braced body of a declaration.
pub open spec fn body_mode(kind: DeclKind) -> BodyMode {
    match kind {
        DeclKind::Struct => BodyMode::Fields,
        DeclKind::Enum => BodyMode::Variants,
        _ => BodyMode::Methods,
    }
}

/// The body of a struct, an enum, a trait or an implementation, whose
/// header ends at `g`: what stands before the brace is scanned for types,
/// then the members are read. A struct may have positional fields, or no
/// body at all.
pub open spec fn body(t: Seq<TokenView>, g: int, d: DeclView) -> ItemView {
    if d.kind == DeclKind::Struct && at(t, g, "(") {
        match members(t, g + 1, BodyMode::Tuple, Seq::empty()) {
            Ok((kids, j)) => {
                let (uses, w) = header_uses(t, j);
                if at(t, w, ";") {
                    ItemView::Decl(DeclView { children: kids, types: uses, ..d }, w + 1)
                } else {
                    ItemView::Fail(ParseErrorKind::ExpectedBody, w)
                }
            },
            Err(e) => ItemView::Fail(e.0, e.1),
        }
    } else {
        let (uses, w) = header_uses(t, g);
        if d.kind == DeclKind::Struct && at(t, w, ";") {
            ItemView::Decl(DeclView { types: uses, ..d }, w + 1)
        } else if at(t, w, "{") {
            match members(t, w + 1, body_mode(d.kind), Seq::empty()) {
                Ok((kids, j)) => ItemView::Decl(DeclView { children: kids, types: uses, ..d }, j),
                Err(e) => ItemView::Fail(e.0, e.1),
            }
        } else {
            ItemView::Fail(ParseErrorKind::ExpectedBody, w)
        }
    }
}

/// A struct, an enum or a trait, whose keyword is at `q`.
pub open spec fn named_decl(t: Seq<TokenView>, q: int, d: DeclView) -> ItemView {
    if !kind_at(t, q + 1, TokenKind::Identifier) {
        ItemView::Fail(ParseErrorKind::ExpectedName, q + 1)
    } else {
        match generics_opt(t, q + 2) {
            Some((generics, g)) => body(t, g, DeclView { name: t[q + 1].text, generics, ..d }),
            None => ItemView::Fail(ParseErrorKind::UnclosedDelimiter, q + 2),
        }
    }
}

/// A function, whose `fn` is at `q`. Its body is passed over.
pub open spec fn fn_decl(t: Seq<TokenView>, q: int, d: DeclView) -> ItemView {
    if !kind_at(t, q + 1, TokenKind::Identifier) {
        ItemView::Fail(ParseErrorKind::ExpectedName, q + 1)
    } else {
        match generics_opt(t, q + 2) {
            Some((generics, g)) => {
                let (uses, w) = header_uses(t, g);
                let node = DeclView { name: t[q + 1].text, generics, types: uses, ..d };
                if at(t, w, ";") {
                    ItemView::Decl(node, w + 1)
                } else if at(t, w, "{") {
                    match group_end(t, w + 1, 1) {
                        Some(e) => ItemView::Decl(node, e),
                        None => ItemView::Fail(ParseErrorKind::UnclosedDelimiter, w),
                    }
                } else {
                    ItemView::Fail(ParseErrorKind::ExpectedBody, w)
                }
            },
            None => ItemView::Fail(ParseErrorKind::UnclosedDelimiter, q + 2),
        }
    }
}

/// A type alias, whose `type` is at `q`.
pub open spec fn alias_decl(t: Seq<TokenView>, q: int, d: DeclView) -> ItemView {
    if !kind_at(t, q + 1, TokenKind::Identifier) {
        ItemView::Fail(ParseErrorKind::ExpectedName, q + 1)
    } else {
        match generics_opt(t, q + 2) {
            Some((generics, g)) => {
                if !at(t, g, "=") {
                    ItemView::Fail(ParseErrorKind::UnexpectedToken, g)
                } else {
                    let (uses, w) = header_uses(t, g + 1);
                    if at(t, w, ";") {
                        ItemView::Decl(
                            DeclView { name: t[q + 1].text, generics, types: uses, ..d },
                            w + 1,
                        )
                    } else {
                        ItemView::Fail(ParseErrorKind::UnexpectedToken, w)
                    }
                }
            },
            None => ItemView::Fail(ParseErrorKind::UnclosedDelimiter, q + 2),
        }
    }
}

/// An implementation, whose `impl` is at `q`: `impl Type` or `impl Trait
/// for Type`. Both names are kept as written.
pub open spec fn impl_decl(t: Seq<TokenView>, q: int, d: DeclView) -> ItemView {
    match generics_opt(t, q + 1) {
        Some((generics, g)) => match path_head(t, g) {
            Ok((first, a)) => if at(t, a, "for") {
                match path_head(t, a + 1) {
                    Ok((second, b)) => body(
                        t,
                        b,
                        DeclView { name: second, trait_name: Some(first), generics, ..d },
                    ),
                    Err(e) => ItemView::Fail(e.0, e.1),
                }
            } else {
                body(t, a, DeclView { name: first, generics, ..d })
            },
            Err(e) => ItemView::Fail(e.0, e.1),
        },
        None => ItemView::Fail(ParseErrorKind::UnclosedDelimiter, q + 1),
    }
}

/// Whether an `extern crate` item or a block of foreign items starts at `i`.
pub open spec fn foreign_at(t: Seq<TokenView>, i: int) -> bool {
    at(t, i, "extern") && (at(t, i + 1, "crate") || at(t, i + 1, "{") || (kind_at(
        t,
        i + 1,
        TokenKind::Literal,
    ) && at(t, i + 2, "{")))
}

/// Whether an item that the tree does not hold starts at `i`: an import, a
/// module, a static, a constant, foreign items or the invocation of a
/// macro.
pub open spec fn passed_over(t: Seq<TokenView>, i: int) -> bool {
    ||| at(t, i, "use") || at(t, i, "mod") || at(t, i, "static")
    ||| at(t, i, "const") && !const_fn_at(t, i)
    ||| foreign_at(t, i)
    ||| kind_at(t, i, TokenKind::Identifier) && at(t, i + 1, "!")
}

/// The visibility written at `i` and the index after it.
pub open spec fn visibility(t: Seq<TokenView>, i: int) -> (Visibility, int) {
    if !at(t, i, "pub") {
        (Visibility::Private, i)
    } else if at(t, i + 1, "(") {
        (Visibility::Restricted, visibility_end(t, i))
    } else {
        (Visibility::Public, i + 1)
    }
}

/// The declaration whose keyword is at `q`. A union is read as a struct.
pub open spec fn declaration(t: Seq<TokenView>, q: int, d: DeclView) -> ItemView {
    if at(t, q, "struct") || (at(t, q, "union") && kind_at(t, q + 1, TokenKind::Identifier)) {
        named_decl(t, q, DeclView { kind: DeclKind::Struct, ..d })
    } else if at(t, q, "enum") {
        named_decl(t, q, DeclView { kind: DeclKind::Enum, ..d })
    } else if at(t, q, "trait") {
        named_decl(t, q, DeclView { kind: DeclKind::Trait, ..d })
    } else if at(t, q, "impl") {
        impl_decl(t, q, DeclView { kind: DeclKind::Implementation, ..d })
    } else if at(t, q, "fn") {
        fn_decl(t, q, DeclView { kind: DeclKind::Function, ..d })
    } else if at(t, q, "type") {
        alias_decl(t, q, DeclView { kind: DeclKind::TypeAlias, ..d })
    } else {
        ItemView::Fail(ParseErrorKind::ExpectedDeclaration, q)
    }
}

/// The item that starts at `i`.
#[verifier::opaque]
pub open spec fn item(t: Seq<TokenView>, i: int) -> ItemView {
    match prefix(t, i, Seq::empty(), Seq::empty()) {
        Ok((docs, markers, k)) => {
            let (vis, v) = visibility(t, k);
            if at(t, v, ";") {
                ItemView::Skip(v + 1)
            } else if passed_over(t, v) {
                ItemView::Skip(item_end(t, v + 1))
            } else {
                let q = qualifiers_end(t, v);
                declaration(t, q, draft(t, q, docs, markers, vis))
            }
        },
        Err(e) => ItemView::Fail(e.0, e.1),
    }
}

/// Whether a declaration may start at `i`: the boundary at which the
/// parser resumes after an error.
pub open spec fn starts_item(t: Seq<TokenView>, i: int) -> bool {
    ||| doc_at(t, i) || at(t, i, "#") || at(t, i, "pub")
    ||| at(t, i, "struct") || at(t, i, "enum") || at(t, i, "trait") || at(t, i, "impl")
    ||| at(t, i, "fn") || at(t, i, "type") || at(t, i, "use") || at(t, i, "mod")
    ||| at(t, i, "const") || at(t, i, "static") || at(t, i, "unsafe") || at(t, i, "async")
    ||| at(t, i, "extern")
}

/// The first declaration boundary at or after `i`, or the end of the tokens.
pub open spec fn recover(t: Seq<TokenView>, i: int) -> int
    decreases t.len() - i,
{
    if i < 0 || i >= t.len() || starts_item(t, i) {
        i
    } else {
        recover(t, i + 1)
    }
}

/// The error of the given kind at the token at `i`. Past the last token,
/// the error takes the position of that token.
pub open spec fn positioned(t: Seq<TokenView>, i: int, reason: ParseErrorKind) -> ParseError {
    if 0 <= i < t.len() {
        ParseError { reason, offset: t[i].offset, line: t[i].line, column: t[i].column }
    } else if t.len() > 0 {
        ParseError {
            reason,
            offset: t.last().offset,
            line: t.last().line,
            column: t.last().column,
        }
    } else {
        ParseError { reason, offset: 0, line: 0, column: 0 }
    }
}

/// The declarations and the errors of the items from `i` on, after those
/// gathered so far. After a malformed declaration the tokens up to the next
/// declaration boundary are discarded.
pub open spec fn items(t: Seq<TokenView>, i: int, decls: Seq<DeclView>, errors: Seq<ParseError>) -> (
    Seq<DeclView>,
    Seq<ParseError>,
)
    decreases t.len() - i,
{
    if i < 0 || i >= t.len() {
        (decls, errors)
    } else {
        match item(t, i) {
            ItemView::Decl(d, j) => if i < j <= t.len() {
                items(t, j, decls.push(d), errors)
            } else {
                (decls, errors)
            },
            ItemView::Skip(j) => if i < j <= t.len() {
                items(t, j, decls, errors)
            } else {
                (decls, errors)
            },
            ItemView::Fail(reason, k) => {
                let from = if k > i {
                    k
                } else {
                    i + 1
                };
                let j = recover(t, from);
                if i < j <= t.len() {
                    items(t, j, decls, errors.push(positioned(t, k, reason)))
                } else {
                    (decls, errors)
                }
            },
        }
    }
}

/// The tree and the errors that a sequence of tokens parses to.
pub open spec fn parsed(tokens: Seq<TokenView>) -> (Seq<DeclView>, Seq<ParseError>) {
    items(significant(tokens), 0, Seq::empty(), Seq::empty())
}

} // verus!
