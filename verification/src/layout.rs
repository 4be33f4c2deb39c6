//! The shape of a tree does not depend on the layout of its text: the
//! parser reads the kinds and the bytes of the tokens, never their
//! positions.

use vstd::prelude::*;
use crate::token::TokenView;
use crate::syntax::{ChildView, DeclKind, DeclView, ParseError, ParseErrorKind, TypeUseView};
use crate::canon::{bare, bare_token};
use crate::grammar::{
    alias_decl, attribute_end, body, declaration, derived, draft, enclosing, field, field_uses,
    fn_decl,
    generics_end, generics_opt, group_end, header_uses, idents_in, impl_decl, is_significant,
    item, item_end, items, member, members, method, named_decl, parsed, path_head, payload_uses,
    positioned, prefix, qualifiers_end, recover, significant, tuple_field, type_uses, variant,
    visibility, visibility_end, with_child, BodyMode, Failure, ItemView,
};

verus! {

/// A child without the span of its body.
pub open spec fn child_shape(c: ChildView) -> ChildView {
    ChildView { body_start: 0, body_end: 0, ..c }
}

/// Children without the spans of their bodies.
pub open spec fn children_shape(cs: Seq<ChildView>) -> Seq<ChildView> {
    Seq::new(cs.len(), |i: int| child_shape(cs[i]))
}

/// A declaration without its position and without the spans of the bodies
/// of its methods.
pub open spec fn decl_shape(d: DeclView) -> DeclView {
    DeclView { children: children_shape(d.children), offset: 0, line: 0, column: 0, ..d }
}

/// The shape of a tree: its declarations without positions and spans.
pub open spec fn tree_shape(ds: Seq<DeclView>) -> Seq<DeclView> {
    Seq::new(ds.len(), |i: int| decl_shape(ds[i]))
}

/// The reasons of errors, without their positions.
pub open spec fn reasons(es: Seq<ParseError>) -> Seq<ParseErrorKind> {
    Seq::new(es.len(), |i: int| es[i].reason)
}

proof fn lemma_children_shape_push(a2: Seq<ChildView>, a: Seq<ChildView>, x2: ChildView, x: ChildView)
    requires
        children_shape(a2) == children_shape(a),
        child_shape(x2) == child_shape(x),
    ensures
        children_shape(a2.push(x2)) == children_shape(a.push(x)),
{
    assert(children_shape(a2).len() == a2.len());
    assert(children_shape(a).len() == a.len());
    assert(a2.len() == a.len());
    assert forall|k: int| 0 <= k < a.len() + 1 implies #[trigger] children_shape(a2.push(x2))[k]
        == children_shape(a.push(x))[k] by {
        assert(children_shape(a2.push(x2))[k] == child_shape(a2.push(x2)[k]));
        assert(children_shape(a.push(x))[k] == child_shape(a.push(x)[k]));
        if k < a.len() {
            assert(children_shape(a2)[k] == children_shape(a)[k]);
            assert(children_shape(a2)[k] == child_shape(a2[k]));
            assert(children_shape(a)[k] == child_shape(a[k]));
            assert(a2.push(x2)[k] == a2[k]);
            assert(a.push(x)[k] == a[k]);
        } else {
            assert(a2.push(x2)[k] == x2);
            assert(a.push(x)[k] == x);
        }
    }
    assert(children_shape(a2.push(x2)) =~= children_shape(a.push(x)));
}

proof fn lemma_tree_shape_push(a2: Seq<DeclView>, a: Seq<DeclView>, x2: DeclView, x: DeclView)
    requires
        tree_shape(a2) == tree_shape(a),
        decl_shape(x2) == decl_shape(x),
    ensures
        tree_shape(a2.push(x2)) == tree_shape(a.push(x)),
{
    assert(tree_shape(a2).len() == a2.len());
    assert(tree_shape(a).len() == a.len());
    assert(a2.len() == a.len());
    assert forall|k: int| 0 <= k < a.len() + 1 implies #[trigger] tree_shape(a2.push(x2))[k]
        == tree_shape(a.push(x))[k] by {
        assert(tree_shape(a2.push(x2))[k] == decl_shape(a2.push(x2)[k]));
        assert(tree_shape(a.push(x))[k] == decl_shape(a.push(x)[k]));
        if k < a.len() {
            assert(tree_shape(a2)[k] == tree_shape(a)[k]);
            assert(tree_shape(a2)[k] == decl_shape(a2[k]));
            assert(tree_shape(a)[k] == decl_shape(a[k]));
            assert(a2.push(x2)[k] == a2[k]);
            assert(a.push(x)[k] == a[k]);
        } else {
            assert(a2.push(x2)[k] == x2);
            assert(a.push(x)[k] == x);
        }
    }
    assert(tree_shape(a2.push(x2)) =~= tree_shape(a.push(x)));
}

proof fn lemma_reasons_push(a2: Seq<ParseError>, a: Seq<ParseError>, x2: ParseError, x: ParseError)
    requires
        reasons(a2) == reasons(a),
        x2.reason == x.reason,
    ensures
        reasons(a2.push(x2)) == reasons(a.push(x)),
{
    assert(reasons(a2).len() == a2.len());
    assert(reasons(a).len() == a.len());
    assert(a2.len() == a.len());
    assert forall|k: int| 0 <= k < a.len() + 1 implies #[trigger] reasons(a2.push(x2))[k]
        == reasons(a.push(x))[k] by {
        if k < a.len() {
            assert(reasons(a2)[k] == reasons(a)[k]);
            assert(reasons(a2)[k] == a2[k].reason);
            assert(reasons(a)[k] == a[k].reason);
            assert(a2.push(x2)[k] == a2[k]);
            assert(reasons(a2.push(x2))[k] == a2.push(x2)[k].reason);
            assert(reasons(a.push(x))[k] == a.push(x)[k].reason);
        } else {
            assert(k == a.len());
            assert(a2.push(x2)[k] == x2);
            assert(reasons(a2.push(x2))[k] == a2.push(x2)[k].reason);
            assert(reasons(a.push(x))[k] == a.push(x)[k].reason);
        }
    }
    assert(reasons(a2.push(x2)) =~= reasons(a.push(x)));
}

proof fn lemma_group_end(t: Seq<TokenView>, i: int, depth: int)
    ensures
        group_end(bare(t), i, depth) == group_end(t, i, depth),
    decreases t.len() - i,
{
    if 0 <= i < t.len() {
        lemma_group_end(t, i + 1, depth + 1);
        lemma_group_end(t, i + 1, depth - 1);
        lemma_group_end(t, i + 1, depth);
    }
}

proof fn lemma_group_end_all(t: Seq<TokenView>)
    ensures
        forall|i: int, depth: int| #[trigger]
            group_end(bare(t), i, depth) == group_end(t, i, depth),
{
    assert forall|i: int, depth: int| #[trigger]
        group_end(bare(t), i, depth) == group_end(t, i, depth) by {
        lemma_group_end(t, i, depth);
    }
}

proof fn lemma_generics_end(
    t: Seq<TokenView>,
    i: int,
    depth: int,
    fresh: bool,
    acc: Seq<Seq<u8>>,
)
    ensures
        generics_end(bare(t), i, depth, fresh, acc) == generics_end(t, i, depth, fresh, acc),
    decreases t.len() - i,
{
    lemma_group_end_all(t);
    if 0 <= i < t.len() {
        lemma_generics_end(t, i + 1, depth - 1, false, acc);
        lemma_generics_end(t, i + 1, depth + 1, false, acc);
        if i + 2 <= t.len() {
            lemma_generics_end(t, i + 2, depth, false, acc);
        }
        match group_end(t, i + 1, 1) {
            Some(j) => {
                if i < j <= t.len() {
                    lemma_generics_end(t, j, depth, false, acc);
                }
            },
            None => {},
        }
        lemma_generics_end(t, i + 1, depth, depth == 1, acc);
        lemma_generics_end(t, i + 1, depth, true, acc);
        lemma_generics_end(t, i + 1, depth, false, acc.push(t[i].text));
        lemma_generics_end(t, i + 1, depth, false, acc);
    }
}

proof fn lemma_generics_all(t: Seq<TokenView>)
    ensures
        forall|i: int, depth: int, fresh: bool, acc: Seq<Seq<u8>>| #[trigger]
            generics_end(bare(t), i, depth, fresh, acc) == generics_end(t, i, depth, fresh, acc),
        forall|i: int| #[trigger] generics_opt(bare(t), i) == generics_opt(t, i),
{
    assert forall|i: int, depth: int, fresh: bool, acc: Seq<Seq<u8>>| #[trigger]
        generics_end(bare(t), i, depth, fresh, acc) == generics_end(t, i, depth, fresh, acc) by {
        lemma_generics_end(t, i, depth, fresh, acc);
    }
}

proof fn lemma_type_uses(
    t: Seq<TokenView>,
    i: int,
    list: bool,
    stack: Seq<Seq<u8>>,
    last: Seq<u8>,
    acc: Seq<TypeUseView>,
)
    ensures
        type_uses(bare(t), i, list, stack, last, acc) == type_uses(t, i, list, stack, last, acc),
    decreases t.len() - i,
{
    if 0 <= i < t.len() {
        if i + 2 <= t.len() {
            lemma_type_uses(t, i + 2, list, stack, last, acc);
        }
        lemma_type_uses(t, i + 1, list, stack.push(last), last, acc);
        lemma_type_uses(t, i + 1, list, stack.push(enclosing(stack)), last, acc);
        lemma_type_uses(t, i + 1, list, stack.drop_last(), last, acc);
        lemma_type_uses(
            t,
            i + 1,
            list,
            stack,
            t[i].text,
            acc.push(TypeUseView { name: t[i].text, within: enclosing(stack) }),
        );
        lemma_type_uses(t, i + 1, list, stack, last, acc);
    }
}

proof fn lemma_type_uses_all(t: Seq<TokenView>)
    ensures
        forall|i: int| #[trigger] header_uses(bare(t), i) == header_uses(t, i),
        forall|i: int| #[trigger] field_uses(bare(t), i) == field_uses(t, i),
        forall|i: int| #[trigger] payload_uses(bare(t), i) == payload_uses(t, i),
{
    assert forall|i: int| #[trigger] header_uses(bare(t), i) == header_uses(t, i) by {
        lemma_type_uses(t, i, false, Seq::empty(), Seq::empty(), Seq::empty());
    }
    assert forall|i: int| #[trigger] field_uses(bare(t), i) == field_uses(t, i) by {
        lemma_type_uses(t, i, true, Seq::empty(), Seq::empty(), Seq::empty());
    }
    assert forall|i: int| #[trigger] payload_uses(bare(t), i) == payload_uses(t, i) by {
        lemma_type_uses(t, i, true, seq![Seq::empty()], Seq::empty(), Seq::empty());
    }
}

proof fn lemma_qualifiers_end(t: Seq<TokenView>, i: int)
    ensures
        qualifiers_end(bare(t), i) == qualifiers_end(t, i),
    decreases t.len() - i,
{
    if 0 <= i < t.len() {
        lemma_qualifiers_end(t, i + 1);
        if i + 2 <= t.len() {
            lemma_qualifiers_end(t, i + 2);
        }
    }
}

proof fn lemma_item_end(t: Seq<TokenView>, i: int)
    ensures
        item_end(bare(t), i) == item_end(t, i),
    decreases t.len() - i,
{
    lemma_group_end_all(t);
    if 0 <= i < t.len() {
        lemma_item_end(t, i + 1);
        match group_end(t, i + 1, 1) {
            Some(j) => {
                if i < j <= t.len() {
                    lemma_item_end(t, j);
                }
            },
            None => {},
        }
    }
}

proof fn lemma_skips_all(t: Seq<TokenView>)
    ensures
        forall|i: int| #[trigger] qualifiers_end(bare(t), i) == qualifiers_end(t, i),
        forall|i: int| #[trigger] item_end(bare(t), i) == item_end(t, i),
        forall|i: int| #[trigger] attribute_end(bare(t), i) == attribute_end(t, i),
        forall|i: int| #[trigger] visibility_end(bare(t), i) == visibility_end(t, i),
        forall|i: int| #[trigger] visibility(bare(t), i) == visibility(t, i),
{
    lemma_group_end_all(t);
    assert forall|i: int| #[trigger] qualifiers_end(bare(t), i) == qualifiers_end(t, i) by {
        lemma_qualifiers_end(t, i);
    }
    assert forall|i: int| #[trigger] item_end(bare(t), i) == item_end(t, i) by {
        lemma_item_end(t, i);
    }
}

/// A member without the span of its body.
pub open spec fn member_shape(r: Result<(Option<ChildView>, int), Failure>) -> Result<
    (Option<ChildView>, int),
    Failure,
> {
    match r {
        Ok((Some(c), j)) => Ok((Some(child_shape(c)), j)),
        other => other,
    }
}

proof fn lemma_member(t: Seq<TokenView>, i: int, mode: BodyMode)
    ensures
        member_shape(member(bare(t), i, mode)) == member_shape(member(t, i, mode)),
{
    lemma_type_uses_all(t);
    lemma_skips_all(t);
    lemma_group_end_all(t);
    match mode {
        BodyMode::Fields => {
            assert(field(bare(t), i) == field(t, i));
        },
        BodyMode::Tuple => {
            assert(tuple_field(bare(t), i) == tuple_field(t, i));
        },
        BodyMode::Variants => {
            assert(variant(bare(t), i) == variant(t, i));
        },
        BodyMode::Methods => {
            assert(member_shape(method(bare(t), i)) == member_shape(method(t, i)));
        },
    }
}

/// Members without the spans of their bodies.
pub open spec fn members_shape(r: Result<(Seq<ChildView>, int), Failure>) -> Result<
    (Seq<ChildView>, int),
    Failure,
> {
    match r {
        Ok((cs, j)) => Ok((children_shape(cs), j)),
        Err(e) => Err(e),
    }
}

proof fn lemma_members(
    t: Seq<TokenView>,
    i: int,
    mode: BodyMode,
    acc2: Seq<ChildView>,
    acc: Seq<ChildView>,
)
    requires
        children_shape(acc2) == children_shape(acc),
    ensures
        members_shape(members(bare(t), i, mode, acc2)) == members_shape(
            members(t, i, mode, acc),
        ),
    decreases t.len() - i,
{
    lemma_skips_all(t);
    if 0 <= i < t.len() {
        lemma_members(t, i + 1, mode, acc2, acc);
        match attribute_end(t, i) {
            Some(j) => {
                if i < j <= t.len() {
                    lemma_members(t, j, mode, acc2, acc);
                }
            },
            None => {},
        }
        let j = visibility_end(t, i);
        if i < j <= t.len() {
            lemma_members(t, j, mode, acc2, acc);
        }
        lemma_member(t, i, mode);
        match (member(bare(t), i, mode), member(t, i, mode)) {
            (Ok((c2, j2)), Ok((c, j))) => {
                if i < j <= t.len() {
                    let next2 = with_child(acc2, c2);
                    let next = with_child(acc, c);
                    assert(member_shape(Ok((c2, j2))) == member_shape(Ok((c, j))));
                    assert(j2 == j);
                    match (c2, c) {
                        (Some(x2), Some(x)) => {
                            lemma_children_shape_push(acc2, acc, x2, x);
                        },
                        (None, None) => {},
                        _ => {
                            assert(false);
                        },
                    }
                    lemma_members(t, j, mode, next2, next);
                }
            },
            _ => {},
        }
    }
}

proof fn lemma_members_all(t: Seq<TokenView>)
    ensures
        forall|i: int, mode: BodyMode| #[trigger]
            members_shape(members(bare(t), i, mode, Seq::empty())) == members_shape(
                members(t, i, mode, Seq::empty()),
            ),
{
    assert forall|i: int, mode: BodyMode| #[trigger]
        members_shape(members(bare(t), i, mode, Seq::empty())) == members_shape(
            members(t, i, mode, Seq::empty()),
        ) by {
        lemma_members(t, i, mode, Seq::empty(), Seq::empty());
    }
}

proof fn lemma_idents_in(t: Seq<TokenView>, i: int, to: int, acc: Seq<Seq<u8>>)
    ensures
        idents_in(bare(t), i, to, acc) == idents_in(t, i, to, acc),
    decreases to - i,
{
    if 0 <= i < to && i < t.len() {
        lemma_idents_in(t, i + 1, to, acc.push(t[i].text));
        lemma_idents_in(t, i + 1, to, acc);
    }
}

proof fn lemma_prefix(t: Seq<TokenView>, i: int, docs: Seq<u8>, markers: Seq<Seq<u8>>)
    ensures
        prefix(bare(t), i, docs, markers) == prefix(t, i, docs, markers),
    decreases t.len() - i,
{
    lemma_skips_all(t);
    if 0 <= i < t.len() {
        lemma_prefix(t, i + 1, docs + t[i].text + seq![10u8], markers);
        match attribute_end(t, i) {
            Some(j) => {
                if i < j <= t.len() {
                    assert(derived(bare(t), i, j, markers) == derived(t, i, j, markers)) by {
                        let k = crate::grammar::attribute_bracket(t, i);
                        lemma_idents_in(t, k + 2, j, markers);
                    }
                    lemma_prefix(t, j, docs, derived(t, i, j, markers));
                }
            },
            None => {},
        }
    }
}

proof fn lemma_path_head(t: Seq<TokenView>, i: int)
    ensures
        path_head(bare(t), i) == path_head(t, i),
    decreases t.len() - i,
{
    lemma_generics_all(t);
    if 0 <= i < t.len() {
        lemma_path_head(t, i + 1);
        if i + 2 <= t.len() {
            lemma_path_head(t, i + 2);
        }
        if i + 3 <= t.len() {
            lemma_path_head(t, i + 3);
        }
    }
}

proof fn lemma_path_head_all(t: Seq<TokenView>)
    ensures
        forall|i: int| #[trigger] path_head(bare(t), i) == path_head(t, i),
{
    assert forall|i: int| #[trigger] path_head(bare(t), i) == path_head(t, i) by {
        lemma_path_head(t, i);
    }
}

proof fn lemma_recover(t: Seq<TokenView>, i: int)
    ensures
        recover(bare(t), i) == recover(t, i),
    decreases t.len() - i,
{
    if 0 <= i < t.len() {
        lemma_recover(t, i + 1);
    }
}

/// An item without positions and spans.
pub open spec fn item_shape(r: ItemView) -> ItemView {
    match r {
        ItemView::Decl(d, j) => ItemView::Decl(decl_shape(d), j),
        other => other,
    }
}

proof fn lemma_body(t: Seq<TokenView>, g: int, d2: DeclView, d: DeclView)
    requires
        decl_shape(d2) == decl_shape(d),
    ensures
        item_shape(body(bare(t), g, d2)) == item_shape(body(t, g, d)),
{
    lemma_members_all(t);
    lemma_type_uses_all(t);
    assert(d2.kind == d.kind);
    let empty = Seq::<ChildView>::empty();
    assert(members_shape(members(bare(t), g + 1, BodyMode::Tuple, empty)) == members_shape(
        members(t, g + 1, BodyMode::Tuple, empty),
    ));
    let w = header_uses(t, g).1;
    assert(members_shape(members(bare(t), w + 1, crate::grammar::body_mode(d.kind), empty))
        == members_shape(members(t, w + 1, crate::grammar::body_mode(d.kind), empty)));
}

proof fn lemma_named_decl(t: Seq<TokenView>, q: int, d2: DeclView, d: DeclView)
    requires
        decl_shape(d2) == decl_shape(d),
    ensures
        item_shape(named_decl(bare(t), q, d2)) == item_shape(named_decl(t, q, d)),
{
    lemma_generics_all(t);
    if 0 <= q + 1 < t.len() {
        match generics_opt(t, q + 2) {
            Some((generics, g)) => {
                lemma_body(
                    t,
                    g,
                    DeclView { name: bare(t)[q + 1].text, generics, ..d2 },
                    DeclView { name: t[q + 1].text, generics, ..d },
                );
            },
            None => {},
        }
    }
}

proof fn lemma_fn_decl(t: Seq<TokenView>, q: int, d2: DeclView, d: DeclView)
    requires
        decl_shape(d2) == decl_shape(d),
    ensures
        item_shape(fn_decl(bare(t), q, d2)) == item_shape(fn_decl(t, q, d)),
{
    lemma_generics_all(t);
    lemma_type_uses_all(t);
    lemma_group_end_all(t);
}

proof fn lemma_alias_decl(t: Seq<TokenView>, q: int, d2: DeclView, d: DeclView)
    requires
        decl_shape(d2) == decl_shape(d),
    ensures
        item_shape(alias_decl(bare(t), q, d2)) == item_shape(alias_decl(t, q, d)),
{
    lemma_generics_all(t);
    lemma_type_uses_all(t);
}

proof fn lemma_impl_decl(t: Seq<TokenView>, q: int, d2: DeclView, d: DeclView)
    requires
        decl_shape(d2) == decl_shape(d),
    ensures
        item_shape(impl_decl(bare(t), q, d2)) == item_shape(impl_decl(t, q, d)),
{
    lemma_generics_all(t);
    lemma_path_head_all(t);
    match generics_opt(t, q + 1) {
        Some((generics, g)) => match path_head(t, g) {
            Ok((first, a)) => {
                match path_head(t, a + 1) {
                    Ok((second, b)) => {
                        lemma_body(
                            t,
                            b,
                            DeclView { name: second, trait_name: Some(first), generics, ..d2 },
                            DeclView { name: second, trait_name: Some(first), generics, ..d },
                        );
                    },
                    Err(_) => {},
                }
                lemma_body(
                    t,
                    a,
                    DeclView { name: first, generics, ..d2 },
                    DeclView { name: first, generics, ..d },
                );
            },
            Err(_) => {},
        },
        None => {},
    }
}

proof fn lemma_declaration(t: Seq<TokenView>, q: int, d2: DeclView, d: DeclView)
    requires
        decl_shape(d2) == decl_shape(d),
    ensures
        item_shape(declaration(bare(t), q, d2)) == item_shape(declaration(t, q, d)),
{
    lemma_named_decl(
        t,
        q,
        DeclView { kind: DeclKind::Struct, ..d2 },
        DeclView { kind: DeclKind::Struct, ..d },
    );
    lemma_named_decl(
        t,
        q,
        DeclView { kind: DeclKind::Enum, ..d2 },
        DeclView { kind: DeclKind::Enum, ..d },
    );
    lemma_named_decl(
        t,
        q,
        DeclView { kind: DeclKind::Trait, ..d2 },
        DeclView { kind: DeclKind::Trait, ..d },
    );
    lemma_impl_decl(
        t,
        q,
        DeclView { kind: DeclKind::Implementation, ..d2 },
        DeclView { kind: DeclKind::Implementation, ..d },
    );
    lemma_fn_decl(
        t,
        q,
        DeclView { kind: DeclKind::Function, ..d2 },
        DeclView { kind: DeclKind::Function, ..d },
    );
    lemma_alias_decl(
        t,
        q,
        DeclView { kind: DeclKind::TypeAlias, ..d2 },
        DeclView { kind: DeclKind::TypeAlias, ..d },
    );
}

proof fn lemma_item(t: Seq<TokenView>, i: int)
    ensures
        item_shape(item(bare(t), i)) == item_shape(item(t, i)),
{
    reveal(item);
    lemma_prefix(t, i, Seq::empty(), Seq::empty());
    lemma_skips_all(t);
    match prefix(t, i, Seq::empty(), Seq::empty()) {
        Ok((docs, markers, k)) => {
            let (vis, v) = visibility(t, k);
            let q = qualifiers_end(t, v);
            lemma_declaration(
                t,
                q,
                draft(bare(t), q, docs, markers, vis),
                draft(t, q, docs, markers, vis),
            );
        },
        Err(_) => {},
    }
}

proof fn lemma_items(
    t: Seq<TokenView>,
    i: int,
    decls2: Seq<DeclView>,
    errors2: Seq<ParseError>,
    decls: Seq<DeclView>,
    errors: Seq<ParseError>,
)
    requires
        tree_shape(decls2) == tree_shape(decls),
        reasons(errors2) == reasons(errors),
    ensures
        tree_shape(items(bare(t), i, decls2, errors2).0) == tree_shape(
            items(t, i, decls, errors).0,
        ),
        reasons(items(bare(t), i, decls2, errors2).1) == reasons(items(t, i, decls, errors).1),
    decreases t.len() - i,
{
    if 0 <= i < t.len() {
        lemma_item(t, i);
        match (item(bare(t), i), item(t, i)) {
            (ItemView::Decl(d2, j2), ItemView::Decl(d, j)) => {
                if i < j <= t.len() {
                    let next2 = decls2.push(d2);
                    let next = decls.push(d);
                    assert(item_shape(ItemView::Decl(d2, j2)) == item_shape(ItemView::Decl(d, j)));
                    assert(j2 == j);
                    lemma_tree_shape_push(decls2, decls, d2, d);
                    lemma_items(t, j, next2, errors2, next, errors);
                }
            },
            (ItemView::Skip(j2), ItemView::Skip(j)) => {
                if i < j <= t.len() {
                    lemma_items(t, j, decls2, errors2, decls, errors);
                }
            },
            (ItemView::Fail(r2, k2), ItemView::Fail(r, k)) => {
                let from = if k > i {
                    k
                } else {
                    i + 1
                };
                lemma_recover(t, from);
                let j = recover(t, from);
                if i < j <= t.len() {
                    let next2 = errors2.push(positioned(bare(t), k, r));
                    let next = errors.push(positioned(t, k, r));
                    assert(item_shape(ItemView::Fail(r2, k2)) == item_shape(ItemView::Fail(r, k)));
                    assert(r2 == r && k2 == k);
                    lemma_reasons_push(errors2, errors, positioned(bare(t), k, r), positioned(t, k, r));
                    lemma_items(t, j, decls2, next2, decls, next);
                }
            },
            _ => {},
        }
    }
}

proof fn lemma_significant_bare(ts: Seq<TokenView>)
    ensures
        significant(bare(ts)) == bare(significant(ts)),
    decreases ts.len(),
{
    reveal(Seq::filter);
    if ts.len() > 0 {
        lemma_significant_bare(ts.drop_last());
        assert(bare(ts).drop_last() =~= bare(ts.drop_last()));
        assert(bare(ts).last() == bare_token(ts.last()));
        assert(is_significant(bare_token(ts.last())) == is_significant(ts.last()));
        if is_significant(ts.last()) {
            assert(bare(significant(ts.drop_last()).push(ts.last())) =~= bare(
                significant(ts.drop_last()),
            ).push(bare_token(ts.last())));
        }
    } else {
        assert(bare(ts) =~= ts);
        assert(significant(ts) =~= ts);
    }
}

/// The shape of the parsed tree and the reasons of the parse errors depend
/// on the kinds and the bytes of the tokens alone: tokens that differ only
/// in their positions parse to trees of one shape.
pub proof fn lemma_parse_ignores_layout(a: Seq<TokenView>, b: Seq<TokenView>)
    requires
        bare(a) == bare(b),
    ensures
        tree_shape(parsed(a).0) == tree_shape(parsed(b).0),
        reasons(parsed(a).1) == reasons(parsed(b).1),
{
    lemma_significant_bare(a);
    lemma_significant_bare(b);
    lemma_items(significant(a), 0, Seq::empty(), Seq::empty(), Seq::empty(), Seq::empty());
    lemma_items(significant(b), 0, Seq::empty(), Seq::empty(), Seq::empty(), Seq::empty());
}

} // verus!
