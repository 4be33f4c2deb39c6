//! The parser always advances: whatever stands at an index, the item read
//! there ends after it and inside the tokens, so every token is read and
//! parsing ends at the end of the tokens.

use vstd::prelude::*;
use crate::token::TokenView;
use crate::syntax::{ChildView, DeclView, TypeUseView};
use crate::grammar::{
    alias_decl, attribute_end, body, declaration, enclosing, field_uses, fn_decl, generics_end,
    generics_opt, group_end, header_uses, impl_decl, item, item_end, member, members,
    named_decl, path_head, payload_uses, prefix, qualifiers_end, type_uses, visibility,
    visibility_end, with_child, BodyMode, ItemView,
};

verus! {

pub proof fn lemma_group_end_bounds(t: Seq<TokenView>, i: int, depth: int)
    requires
        0 <= i,
    ensures
        group_end(t, i, depth) matches Some(e) ==> i < e <= t.len(),
    decreases t.len() - i,
{
    if i < t.len() {
        lemma_group_end_bounds(t, i + 1, depth + 1);
        lemma_group_end_bounds(t, i + 1, depth - 1);
        lemma_group_end_bounds(t, i + 1, depth);
    }
}

pub proof fn lemma_generics_end_bounds(
    t: Seq<TokenView>,
    i: int,
    depth: int,
    fresh: bool,
    acc: Seq<Seq<u8>>,
)
    requires
        0 <= i,
    ensures
        generics_end(t, i, depth, fresh, acc) matches Some((_, e)) ==> i < e <= t.len(),
    decreases t.len() - i,
{
    if i < t.len() {
        lemma_group_end_bounds(t, i + 1, 1);
        lemma_generics_end_bounds(t, i + 1, depth - 1, false, acc);
        lemma_generics_end_bounds(t, i + 1, depth + 1, false, acc);
        if i + 2 <= t.len() {
            lemma_generics_end_bounds(t, i + 2, depth, false, acc);
        }
        match group_end(t, i + 1, 1) {
            Some(j) => {
                if i < j <= t.len() {
                    lemma_generics_end_bounds(t, j, depth, false, acc);
                }
            },
            None => {},
        }
        lemma_generics_end_bounds(t, i + 1, depth, depth == 1, acc);
        lemma_generics_end_bounds(t, i + 1, depth, true, acc);
        lemma_generics_end_bounds(t, i + 1, depth, false, acc.push(t[i].text));
        lemma_generics_end_bounds(t, i + 1, depth, false, acc);
    }
}

pub proof fn lemma_generics_opt_bounds(t: Seq<TokenView>, i: int)
    requires
        0 <= i <= t.len(),
    ensures
        generics_opt(t, i) matches Some((_, e)) ==> i <= e <= t.len(),
{
    lemma_generics_end_bounds(t, i + 1, 1, true, Seq::empty());
}

pub proof fn lemma_type_uses_bounds(
    t: Seq<TokenView>,
    i: int,
    list: bool,
    stack: Seq<Seq<u8>>,
    last: Seq<u8>,
    acc: Seq<TypeUseView>,
)
    requires
        0 <= i <= t.len(),
    ensures
        i <= type_uses(t, i, list, stack, last, acc).1 <= t.len(),
    decreases t.len() - i,
{
    if i < t.len() {
        if i + 2 <= t.len() {
            lemma_type_uses_bounds(t, i + 2, list, stack, last, acc);
        }
        lemma_type_uses_bounds(t, i + 1, list, stack.push(last), last, acc);
        lemma_type_uses_bounds(t, i + 1, list, stack.push(enclosing(stack)), last, acc);
        lemma_type_uses_bounds(t, i + 1, list, stack.drop_last(), last, acc);
        lemma_type_uses_bounds(
            t,
            i + 1,
            list,
            stack,
            t[i].text,
            acc.push(TypeUseView { name: t[i].text, within: enclosing(stack) }),
        );
        lemma_type_uses_bounds(t, i + 1, list, stack, last, acc);
    }
}

pub proof fn lemma_uses_bounds(t: Seq<TokenView>, i: int)
    requires
        0 <= i <= t.len(),
    ensures
        i <= header_uses(t, i).1 <= t.len(),
        i <= field_uses(t, i).1 <= t.len(),
        i <= payload_uses(t, i).1 <= t.len(),
{
    lemma_type_uses_bounds(t, i, false, Seq::empty(), Seq::empty(), Seq::empty());
    lemma_type_uses_bounds(t, i, true, Seq::empty(), Seq::empty(), Seq::empty());
    lemma_type_uses_bounds(t, i, true, seq![Seq::empty()], Seq::empty(), Seq::empty());
}

pub proof fn lemma_qualifiers_end_bounds(t: Seq<TokenView>, i: int)
    requires
        0 <= i <= t.len(),
    ensures
        i <= qualifiers_end(t, i) <= t.len(),
    decreases t.len() - i,
{
    if i < t.len() {
        lemma_qualifiers_end_bounds(t, i + 1);
        if i + 2 <= t.len() {
            lemma_qualifiers_end_bounds(t, i + 2);
        }
    }
}

pub proof fn lemma_item_end_bounds(t: Seq<TokenView>, i: int)
    requires
        0 <= i <= t.len(),
    ensures
        i <= item_end(t, i) <= t.len(),
    decreases t.len() - i,
{
    if i < t.len() {
        lemma_group_end_bounds(t, i + 1, 1);
        lemma_item_end_bounds(t, i + 1);
        match group_end(t, i + 1, 1) {
            Some(j) => {
                if i < j <= t.len() {
                    lemma_item_end_bounds(t, j);
                }
            },
            None => {},
        }
    }
}

pub proof fn lemma_skip_bounds(t: Seq<TokenView>, i: int)
    requires
        0 <= i < t.len(),
    ensures
        attribute_end(t, i) matches Some(e) ==> i < e <= t.len(),
        i < visibility_end(t, i) <= t.len(),
        i <= visibility(t, i).1 <= t.len(),
{
    lemma_group_end_bounds(t, i + 2, 1);
    lemma_group_end_bounds(t, i + 3, 1);
}

/// A member ends after its start and inside the tokens; a failure points at
/// or after the start.
pub proof fn lemma_member_bounds(t: Seq<TokenView>, i: int, mode: BodyMode)
    requires
        0 <= i < t.len(),
    ensures
        match member(t, i, mode) {
            Ok((_, j)) => i < j <= t.len(),
            Err((_, a)) => i <= a <= t.len(),
        },
{
    lemma_uses_bounds(t, i);
    if i + 2 <= t.len() {
        lemma_uses_bounds(t, i + 2);
    }
    let q = qualifiers_end(t, i);
    lemma_qualifiers_end_bounds(t, i);
    if q + 1 <= t.len() {
        lemma_item_end_bounds(t, q + 1);
    }
    if q + 2 <= t.len() {
        lemma_uses_bounds(t, q + 2);
        let j = header_uses(t, q + 2).1;
        lemma_group_end_bounds(t, j + 1, 1);
    }
}

pub proof fn lemma_members_bounds(t: Seq<TokenView>, i: int, mode: BodyMode, acc: Seq<ChildView>)
    requires
        0 <= i <= t.len(),
    ensures
        match members(t, i, mode, acc) {
            Ok((_, j)) => i < j <= t.len(),
            Err((_, a)) => i <= a <= t.len(),
        },
    decreases t.len() - i,
{
    if i < t.len() {
        lemma_skip_bounds(t, i);
        lemma_members_bounds(t, i + 1, mode, acc);
        match attribute_end(t, i) {
            Some(j) => {
                lemma_members_bounds(t, j, mode, acc);
            },
            None => {},
        }
        lemma_members_bounds(t, visibility_end(t, i), mode, acc);
        lemma_member_bounds(t, i, mode);
        match member(t, i, mode) {
            Ok((c, j)) => {
                lemma_members_bounds(t, j, mode, with_child(acc, c));
            },
            Err(_) => {},
        }
    }
}

pub proof fn lemma_prefix_bounds(t: Seq<TokenView>, i: int, docs: Seq<u8>, markers: Seq<Seq<u8>>)
    requires
        0 <= i <= t.len(),
    ensures
        match prefix(t, i, docs, markers) {
            Ok((_, _, j)) => i <= j <= t.len(),
            Err((_, a)) => i <= a < t.len(),
        },
    decreases t.len() - i,
{
    if i < t.len() {
        lemma_skip_bounds(t, i);
        lemma_prefix_bounds(t, i + 1, docs + t[i].text + seq![10u8], markers);
        match attribute_end(t, i) {
            Some(j) => {
                lemma_prefix_bounds(t, j, docs, crate::grammar::derived(t, i, j, markers));
            },
            None => {},
        }
    }
}

pub proof fn lemma_path_head_bounds(t: Seq<TokenView>, i: int)
    requires
        0 <= i <= t.len(),
    ensures
        match path_head(t, i) {
            Ok((_, j)) => i < j <= t.len(),
            Err((_, a)) => i <= a <= t.len(),
        },
    decreases t.len() - i,
{
    if i < t.len() {
        lemma_generics_opt_bounds(t, i + 1);
        lemma_path_head_bounds(t, i + 1);
        if i + 2 <= t.len() {
            lemma_path_head_bounds(t, i + 2);
        }
        if i + 3 <= t.len() {
            lemma_path_head_bounds(t, i + 3);
        }
    }
}

/// Whether the indices of an item lie in their bounds: a declaration or a
/// passed-over item ends after `lo`, a failure points at or after `lo`, and
/// none lies beyond `hi`.
pub open spec fn advances(r: ItemView, lo: int, hi: int) -> bool {
    match r {
        ItemView::Decl(_, j) => lo < j <= hi,
        ItemView::Skip(j) => lo < j <= hi,
        ItemView::Fail(_, a) => lo <= a <= hi,
    }
}

proof fn lemma_body_bounds(t: Seq<TokenView>, g: int, d: DeclView)
    requires
        0 <= g <= t.len(),
    ensures
        advances(body(t, g, d), g, t.len() as int),
{
    lemma_uses_bounds(t, g);
    let w = header_uses(t, g).1;
    if w + 1 <= t.len() {
        lemma_members_bounds(t, w + 1, crate::grammar::body_mode(d.kind), Seq::empty());
    }
    if g + 1 <= t.len() {
        lemma_members_bounds(t, g + 1, BodyMode::Tuple, Seq::empty());
        match members(t, g + 1, BodyMode::Tuple, Seq::empty()) {
            Ok((_, j)) => {
                lemma_uses_bounds(t, j);
            },
            Err(_) => {},
        }
    }
}

proof fn lemma_declaration_bounds(t: Seq<TokenView>, q: int, d: DeclView)
    requires
        0 <= q < t.len(),
    ensures
        advances(declaration(t, q, d), q, t.len() as int),
{
    lemma_named_bounds(t, q, DeclView { kind: crate::syntax::DeclKind::Struct, ..d });
    lemma_named_bounds(t, q, DeclView { kind: crate::syntax::DeclKind::Enum, ..d });
    lemma_named_bounds(t, q, DeclView { kind: crate::syntax::DeclKind::Trait, ..d });
    lemma_impl_bounds(t, q, DeclView { kind: crate::syntax::DeclKind::Implementation, ..d });
    lemma_fn_bounds(t, q, DeclView { kind: crate::syntax::DeclKind::Function, ..d });
    lemma_alias_bounds(t, q, DeclView { kind: crate::syntax::DeclKind::TypeAlias, ..d });
}

proof fn lemma_named_bounds(t: Seq<TokenView>, q: int, d: DeclView)
    requires
        0 <= q < t.len(),
    ensures
        advances(named_decl(t, q, d), q, t.len() as int),
{
    if q + 2 <= t.len() {
        lemma_generics_opt_bounds(t, q + 2);
        match generics_opt(t, q + 2) {
            Some((generics, g)) => {
                lemma_body_bounds(t, g, DeclView { name: t[q + 1].text, generics, ..d });
            },
            None => {},
        }
    }
}

proof fn lemma_fn_bounds(t: Seq<TokenView>, q: int, d: DeclView)
    requires
        0 <= q < t.len(),
    ensures
        advances(fn_decl(t, q, d), q, t.len() as int),
{
    if q + 2 <= t.len() {
        lemma_generics_opt_bounds(t, q + 2);
        match generics_opt(t, q + 2) {
            Some((_, g)) => {
                lemma_uses_bounds(t, g);
                lemma_group_end_bounds(t, header_uses(t, g).1 + 1, 1);
            },
            None => {},
        }
    }
}

proof fn lemma_alias_bounds(t: Seq<TokenView>, q: int, d: DeclView)
    requires
        0 <= q < t.len(),
    ensures
        advances(alias_decl(t, q, d), q, t.len() as int),
{
    if q + 2 <= t.len() {
        lemma_generics_opt_bounds(t, q + 2);
        match generics_opt(t, q + 2) {
            Some((_, g)) => {
                if g + 1 <= t.len() {
                    lemma_uses_bounds(t, g + 1);
                }
            },
            None => {},
        }
    }
}

proof fn lemma_impl_bounds(t: Seq<TokenView>, q: int, d: DeclView)
    requires
        0 <= q < t.len(),
    ensures
        advances(impl_decl(t, q, d), q, t.len() as int),
{
    lemma_generics_opt_bounds(t, q + 1);
    match generics_opt(t, q + 1) {
        Some((generics, g)) => {
            lemma_path_head_bounds(t, g);
            match path_head(t, g) {
                Ok((first, a)) => {
                    lemma_body_bounds(t, a, DeclView { name: first, generics, ..d });
                    if a + 1 <= t.len() {
                        lemma_path_head_bounds(t, a + 1);
                        match path_head(t, a + 1) {
                            Ok((second, b)) => {
                                lemma_body_bounds(
                                    t,
                                    b,
                                    DeclView {
                                        name: second,
                                        trait_name: Some(first),
                                        generics,
                                        ..d
                                    },
                                );
                            },
                            Err(_) => {},
                        }
                    }
                },
                Err(_) => {},
            }
        },
        None => {},
    }
}

/// The item read at an index ends after that index and inside the tokens; a
/// malformed declaration fails at a token at or after the index. So no
/// token is read twice, and the parser stops only at the end of the tokens.
pub proof fn lemma_item_advances(t: Seq<TokenView>, i: int)
    requires
        0 <= i < t.len(),
    ensures
        advances(item(t, i), i, t.len() as int),
{
    reveal(item);
    lemma_prefix_bounds(t, i, Seq::empty(), Seq::empty());
    match prefix(t, i, Seq::empty(), Seq::empty()) {
        Ok((docs, markers, k)) => {
            if k < t.len() {
                lemma_skip_bounds(t, k);
            }
            let (vis, v) = visibility(t, k);
            if v + 1 <= t.len() {
                lemma_item_end_bounds(t, v + 1);
            }
            lemma_qualifiers_end_bounds(t, v);
            let q = qualifiers_end(t, v);
            if q < t.len() {
                lemma_declaration_bounds(t, q, crate::grammar::draft(t, q, docs, markers, vis));
            }
        },
        Err(_) => {},
    }
}

} // verus!
