//! The structural parser: tokens to a tree of declarations.

use vstd::prelude::*;
use crate::text::{views, is_word, copy_bytes, append_bytes, group_views};
use crate::token::{Token, TokenKind};
use crate::syntax::{
    ChildKind, ChildNode, ChildView, Cst, DeclKind, DeclarationNode, ParseError, ParseErrorKind,
    TypeUse, Visibility,
};
use crate::grammar::{
    at, attribute_end, body, body_mode, child, closes, const_fn_at, declaration, draft,
    enclosing, ends_type, field, fn_decl, alias_decl, impl_decl, generics_end, generics_opt,
    group_end, header_uses, idents_in, is_doc_comment, item, item_end, items, kind_at, member,
    members, method, named_decl, opens, parsed, passed_over, path_head, payload_uses,
    positioned, prefix, qualifiers_end, recover, significant, starts_item, token_end,
    tuple_field, type_uses, variant, visibility, visibility_end, BodyMode, Failure, ItemView,
};

verus! {

broadcast use group_views;

/// The view of an optional child.
pub open spec fn child_opt_view(c: Option<ChildNode>) -> Option<ChildView> {
    match c {
        Some(c) => Some(c@),
        None => None,
    }
}

fn at_word(toks: &Vec<Token>, i: usize, off: usize, s: &str) -> (r: bool)
    ensures
        r == at(views(toks@), i + off, s),
        r ==> i + off < toks.len(),
{
    if i >= toks.len() || toks.len() - i <= off {
        false
    } else {
        is_word(toks[i + off].text.as_slice(), s)
    }
}

fn kind_is(toks: &Vec<Token>, i: usize, off: usize, k: TokenKind) -> (r: bool)
    ensures
        r == kind_at(views(toks@), i + off, k),
        r ==> i + off < toks.len(),
{
    if i >= toks.len() || toks.len() - i <= off {
        false
    } else {
        toks[i + off].kind == k
    }
}

fn is_open(toks: &Vec<Token>, i: usize) -> (r: bool)
    ensures
        r == opens(views(toks@), i as int),
{
    at_word(toks, i, 0, "(") || at_word(toks, i, 0, "[") || at_word(toks, i, 0, "{")
}

fn is_close(toks: &Vec<Token>, i: usize) -> (r: bool)
    ensures
        r == closes(views(toks@), i as int),
{
    at_word(toks, i, 0, ")") || at_word(toks, i, 0, "]") || at_word(toks, i, 0, "}")
}

fn scan_group(toks: &Vec<Token>, i: usize) -> (r: Option<usize>)
    requires
        1 <= i,
    ensures
        match r {
            Some(e) => group_end(views(toks@), i as int, 1) == Some(e as int) && i < e
                <= toks.len(),
            None => group_end(views(toks@), i as int, 1) is None,
        },
{
    let mut j: usize = i;
    let mut depth: usize = 1;
    while j < toks.len()
        invariant
            i <= j,
            1 <= depth <= j,
            group_end(views(toks@), j as int, depth as int) == group_end(
                views(toks@),
                i as int,
                1,
            ),
        decreases toks.len() - j,
    {
        if is_open(toks, j) {
            depth += 1;
        } else if is_close(toks, j) {
            if depth == 1 {
                return Some(j + 1);
            }
            depth -= 1;
        }
        j += 1;
    }
    None
}

fn scan_generics(toks: &Vec<Token>, i: usize) -> (r: Option<(Vec<Vec<u8>>, usize)>)
    requires
        1 <= i,
    ensures
        match r {
            Some((g, e)) => generics_end(views(toks@), i as int, 1, true, Seq::empty()) == Some(
                (views(g@), e as int),
            ) && i < e <= toks.len(),
            None => generics_end(views(toks@), i as int, 1, true, Seq::empty()) is None,
        },
{
    let mut j: usize = i;
    let mut depth: usize = 1;
    let mut fresh: bool = true;
    let mut acc: Vec<Vec<u8>> = Vec::new();
    while j < toks.len()
        invariant
            i <= j,
            1 <= depth <= j,
            generics_end(views(toks@), j as int, depth as int, fresh, views(acc@)) == generics_end(
                views(toks@),
                i as int,
                1,
                true,
                Seq::empty(),
            ),
        decreases toks.len() - j,
    {
        if at_word(toks, j, 0, ";") || at_word(toks, j, 0, "{") {
            return None;
        } else if at_word(toks, j, 0, ">") {
            if depth == 1 {
                return Some((acc, j + 1));
            }
            depth -= 1;
            fresh = false;
            j += 1;
        } else if at_word(toks, j, 0, "<") {
            depth += 1;
            fresh = false;
            j += 1;
        } else if at_word(toks, j, 0, "-") && at_word(toks, j, 1, ">") {
            fresh = false;
            j += 2;
        } else if is_open(toks, j) {
            match scan_group(toks, j + 1) {
                Some(e) => {
                    fresh = false;
                    j = e;
                },
                None => {
                    return None;
                },
            }
        } else if at_word(toks, j, 0, ",") {
            fresh = depth == 1;
            j += 1;
        } else if fresh && (at_word(toks, j, 0, "'") || at_word(toks, j, 0, "const")) {
            j += 1;
        } else if fresh && kind_is(toks, j, 0, TokenKind::Identifier) {
            acc.push(copy_bytes(&toks[j].text));
            fresh = false;
            j += 1;
        } else {
            fresh = false;
            j += 1;
        }
    }
    None
}

fn scan_generics_opt(toks: &Vec<Token>, i: usize) -> (r: Option<(Vec<Vec<u8>>, usize)>)
    ensures
        match r {
            Some((g, e)) => generics_opt(views(toks@), i as int) == Some((views(g@), e as int))
                && i <= e && (i <= toks.len() ==> e <= toks.len()),
            None => generics_opt(views(toks@), i as int) is None,
        },
{
    if at_word(toks, i, 0, "<") {
        scan_generics(toks, i + 1)
    } else {
        Some((Vec::new(), i))
    }
}

fn is_type_end(toks: &Vec<Token>, i: usize, list: bool) -> (r: bool)
    ensures
        r == ends_type(views(toks@), i as int, list),
{
    (list && at_word(toks, i, 0, ",")) || at_word(toks, i, 0, ";") || at_word(toks, i, 0, "=") || at_word(
        toks,
        i,
        0,
        ">",
    ) || at_word(toks, i, 0, "{") || is_close(toks, i)
}

fn top_of(stack: &Vec<Vec<u8>>) -> (r: Vec<u8>)
    ensures
        r@ == enclosing(views(stack@)),
{
    if stack.len() > 0 {
        copy_bytes(&stack[stack.len() - 1])
    } else {
        Vec::new()
    }
}

/// The brackets that are open where a scan for types starts.
pub open spec fn open_brackets(payload: bool) -> Seq<Seq<u8>> {
    if payload {
        seq![Seq::<u8>::empty()]
    } else {
        Seq::<Seq<u8>>::empty()
    }
}

fn scan_type_uses(toks: &Vec<Token>, i: usize, list: bool, payload: bool) -> (r: (
    Vec<TypeUse>,
    usize,
))
    requires
        i <= toks.len(),
    ensures
        (views(r.0@), r.1 as int) == type_uses(
            views(toks@),
            i as int,
            list,
            open_brackets(payload),
            Seq::empty(),
            Seq::empty(),
        ),
        i <= r.1 <= toks.len(),
{
    let mut j: usize = i;
    let mut stack: Vec<Vec<u8>> = Vec::new();
    let mut last: Vec<u8> = Vec::new();
    let mut acc: Vec<TypeUse> = Vec::new();
    if payload {
        stack.push(Vec::new());
        assert(views(stack@) =~= seq![Seq::<u8>::empty()]);
    }
    let ghost start_stack = views(stack@);
    while j < toks.len()
        invariant
            i <= j <= toks.len(),
            start_stack == open_brackets(payload),
            type_uses(views(toks@), j as int, list, views(stack@), last@, views(acc@)) == type_uses(
                views(toks@),
                i as int,
                list,
                start_stack,
                Seq::empty(),
                Seq::empty(),
            ),
        decreases toks.len() - j,
    {
        if stack.len() == 0 && is_type_end(toks, j, list) {
            return (acc, j);
        } else if at_word(toks, j, 0, "-") && at_word(toks, j, 1, ">") {
            j += 2;
        } else if at_word(toks, j, 0, "<") {
            stack.push(copy_bytes(&last));
            j += 1;
        } else if is_open(toks, j) {
            let top = top_of(&stack);
            stack.push(top);
            j += 1;
        } else if at_word(toks, j, 0, ">") || is_close(toks, j) {
            let ghost before = stack@;
            stack.pop();
            assert(stack@ =~= before.drop_last());
            j += 1;
        } else if at_word(toks, j, 0, "'") && kind_is(toks, j, 1, TokenKind::Identifier) {
            j += 2;
        } else if kind_is(toks, j, 0, TokenKind::Identifier) && !at_word(toks, j, 1, ":")
            && !at_word(toks, j, 1, "=") {
            let name = copy_bytes(&toks[j].text);
            last = copy_bytes(&toks[j].text);
            acc.push(TypeUse { name, within: top_of(&stack) });
            j += 1;
        } else {
            j += 1;
        }
    }
    (acc, j)
}

fn scan_attribute(toks: &Vec<Token>, i: usize) -> (r: Option<usize>)
    requires
        i < toks.len(),
    ensures
        match r {
            Some(e) => attribute_end(views(toks@), i as int) == Some(e as int) && i < e
                <= toks.len(),
            None => attribute_end(views(toks@), i as int) is None,
        },
{
    let k: usize = if at_word(toks, i, 1, "!") {
        i + 2
    } else {
        i + 1
    };
    if at_word(toks, k, 0, "[") {
        scan_group(toks, k + 1)
    } else {
        None
    }
}

fn scan_visibility_end(toks: &Vec<Token>, i: usize) -> (e: usize)
    requires
        i < toks.len(),
    ensures
        e as int == visibility_end(views(toks@), i as int),
        i < e <= toks.len(),
{
    if at_word(toks, i, 1, "(") {
        match scan_group(toks, i + 2) {
            Some(j) => j,
            None => i + 1,
        }
    } else {
        i + 1
    }
}

fn is_const_fn(toks: &Vec<Token>, i: usize) -> (r: bool)
    ensures
        r == const_fn_at(views(toks@), i as int),
{
    at_word(toks, i, 0, "const") && (at_word(toks, i, 1, "fn") || at_word(toks, i, 1, "unsafe")
        || at_word(toks, i, 1, "async") || at_word(toks, i, 1, "extern"))
}

fn scan_qualifiers(toks: &Vec<Token>, i: usize) -> (e: usize)
    requires
        i <= toks.len(),
    ensures
        e as int == qualifiers_end(views(toks@), i as int),
        i <= e <= toks.len(),
{
    let mut j: usize = i;
    while j < toks.len()
        invariant
            i <= j <= toks.len(),
            qualifiers_end(views(toks@), j as int) == qualifiers_end(views(toks@), i as int),
        decreases toks.len() - j,
    {
        if at_word(toks, j, 0, "unsafe") || at_word(toks, j, 0, "async") || is_const_fn(toks, j) {
            j += 1;
        } else if at_word(toks, j, 0, "extern") {
            if kind_is(toks, j, 1, TokenKind::Literal) {
                j += 2;
            } else {
                j += 1;
            }
        } else {
            return j;
        }
    }
    j
}

fn scan_item_end(toks: &Vec<Token>, i: usize) -> (e: usize)
    requires
        i <= toks.len(),
    ensures
        e as int == item_end(views(toks@), i as int),
        i <= e <= toks.len(),
{
    let mut j: usize = i;
    while j < toks.len()
        invariant
            i <= j <= toks.len(),
            item_end(views(toks@), j as int) == item_end(views(toks@), i as int),
        decreases toks.len() - j,
    {
        if at_word(toks, j, 0, ";") {
            return j + 1;
        } else if is_open(toks, j) {
            match scan_group(toks, j + 1) {
                Some(e) => {
                    if at_word(toks, j, 0, "{") {
                        return e;
                    }
                    j = e;
                },
                None => {
                    return toks.len();
                },
            }
        } else {
            j += 1;
        }
    }
    j
}

fn plain_child(kind: ChildKind, name: Vec<u8>, types: Vec<TypeUse>) -> (c: ChildNode)
    ensures
        c@ == child(kind, name@, views(types@)),
{
    ChildNode { kind, name, types, discriminant: None, has_body: false, body_start: 0, body_end: 0 }
}

/// Whether an executable result and a model result are the same member.
pub open spec fn same_member(
    r: Result<(Option<ChildNode>, usize), (ParseErrorKind, usize)>,
    s: Result<(Option<ChildView>, int), Failure>,
) -> bool {
    match (r, s) {
        (Ok((c, j)), Ok((sc, sj))) => child_opt_view(c) == sc && j == sj,
        (Err((k, a)), Err((sk, sa))) => k == sk && a == sa,
        _ => false,
    }
}

fn scan_field(toks: &Vec<Token>, i: usize) -> (r: Result<
    (Option<ChildNode>, usize),
    (ParseErrorKind, usize),
>)
    requires
        i < toks.len(),
    ensures
        same_member(r, field(views(toks@), i as int)),
        r matches Ok((_, j)) ==> j <= toks.len(),
        r matches Err((_, a)) ==> i <= a <= toks.len(),
{
    if kind_is(toks, i, 0, TokenKind::Identifier) && at_word(toks, i, 1, ":") {
        let (uses, j) = scan_type_uses(toks, i + 2, true, false);
        Ok((Some(plain_child(ChildKind::Field, copy_bytes(&toks[i].text), uses)), j))
    } else {
        Err((ParseErrorKind::ExpectedField, i))
    }
}

fn scan_tuple_field(toks: &Vec<Token>, i: usize) -> (r: Result<
    (Option<ChildNode>, usize),
    (ParseErrorKind, usize),
>)
    requires
        i < toks.len(),
    ensures
        same_member(r, tuple_field(views(toks@), i as int)),
        r matches Ok((_, j)) ==> j <= toks.len(),
        r matches Err((_, a)) ==> i <= a <= toks.len(),
{
    let (uses, j) = scan_type_uses(toks, i, true, false);
    if j > i {
        Ok((Some(plain_child(ChildKind::Field, Vec::new(), uses)), j))
    } else {
        Err((ParseErrorKind::ExpectedField, i))
    }
}

fn scan_variant(toks: &Vec<Token>, i: usize) -> (r: Result<
    (Option<ChildNode>, usize),
    (ParseErrorKind, usize),
>)
    requires
        i < toks.len(),
    ensures
        same_member(r, variant(views(toks@), i as int)),
        r matches Ok((_, j)) ==> j <= toks.len(),
        r matches Err((_, a)) ==> i <= a <= toks.len(),
{
    if !kind_is(toks, i, 0, TokenKind::Identifier) {
        return Err((ParseErrorKind::ExpectedVariant, i));
    }
    let (uses, j) = if at_word(toks, i, 1, "(") || at_word(toks, i, 1, "{") {
        scan_type_uses(toks, i + 2, true, true)
    } else {
        (Vec::new(), i + 1)
    };
    let mut node = plain_child(ChildKind::Variant, copy_bytes(&toks[i].text), uses);
    if !at_word(toks, j, 0, "=") {
        Ok((Some(node), j))
    } else if kind_is(toks, j, 1, TokenKind::Literal) {
        node.discriminant = Some(copy_bytes(&toks[j + 1].text));
        Ok((Some(node), j + 2))
    } else if at_word(toks, j, 1, "-") && kind_is(toks, j, 2, TokenKind::Literal) {
        let mut text = copy_bytes(&toks[j + 1].text);
        append_bytes(&mut text, toks[j + 2].text.as_slice());
        node.discriminant = Some(text);
        Ok((Some(node), j + 3))
    } else {
        Err((ParseErrorKind::ExpectedDiscriminant, j + 1))
    }
}

fn end_of(toks: &Vec<Token>, i: usize) -> (e: usize)
    requires
        i < toks.len(),
    ensures
        e == token_end(views(toks@), i as int),
{
    let tok = &toks[i];
    if tok.text.len() <= usize::MAX - tok.offset {
        tok.offset + tok.text.len()
    } else {
        usize::MAX
    }
}

fn scan_method(toks: &Vec<Token>, i: usize) -> (r: Result<
    (Option<ChildNode>, usize),
    (ParseErrorKind, usize),
>)
    requires
        i < toks.len(),
    ensures
        same_member(r, method(views(toks@), i as int)),
        r matches Ok((_, j)) ==> j <= toks.len(),
        r matches Err((_, a)) ==> i <= a <= toks.len(),
{
    let q: usize = scan_qualifiers(toks, i);
    if at_word(toks, q, 0, "type") || at_word(toks, q, 0, "const") {
        Ok((None, scan_item_end(toks, q + 1)))
    } else if !at_word(toks, q, 0, "fn") {
        Err((ParseErrorKind::ExpectedMember, q))
    } else if !kind_is(toks, q, 1, TokenKind::Identifier) {
        Err((ParseErrorKind::ExpectedName, q + 1))
    } else {
        let (uses, j) = scan_type_uses(toks, q + 2, false, false);
        let mut node = plain_child(ChildKind::Method, copy_bytes(&toks[q + 1].text), uses);
        if at_word(toks, j, 0, ";") {
            Ok((Some(node), j + 1))
        } else if at_word(toks, j, 0, "{") {
            match scan_group(toks, j + 1) {
                Some(e) => {
                    node.has_body = true;
                    node.body_start = toks[j].offset;
                    node.body_end = end_of(toks, e - 1);
                    Ok((Some(node), e))
                },
                None => Err((ParseErrorKind::UnclosedDelimiter, j)),
            }
        } else {
            Err((ParseErrorKind::ExpectedBody, j))
        }
    }
}

fn scan_member(toks: &Vec<Token>, i: usize, mode: BodyMode) -> (r: Result<
    (Option<ChildNode>, usize),
    (ParseErrorKind, usize),
>)
    requires
        i < toks.len(),
    ensures
        same_member(r, member(views(toks@), i as int, mode)),
        r matches Ok((_, j)) ==> j <= toks.len(),
        r matches Err((_, a)) ==> i <= a <= toks.len(),
{
    match mode {
        BodyMode::Fields => scan_field(toks, i),
        BodyMode::Tuple => scan_tuple_field(toks, i),
        BodyMode::Variants => scan_variant(toks, i),
        BodyMode::Methods => scan_method(toks, i),
    }
}

/// Whether an executable result and a model result are the same members.
pub open spec fn same_members(
    r: Result<(Vec<ChildNode>, usize), (ParseErrorKind, usize)>,
    s: Result<(Seq<ChildView>, int), Failure>,
) -> bool {
    match (r, s) {
        (Ok((c, j)), Ok((sc, sj))) => views(c@) == sc && j == sj,
        (Err((k, a)), Err((sk, sa))) => k == sk && a == sa,
        _ => false,
    }
}

fn scan_members(toks: &Vec<Token>, i: usize, mode: BodyMode) -> (r: Result<
    (Vec<ChildNode>, usize),
    (ParseErrorKind, usize),
>)
    requires
        i <= toks.len(),
    ensures
        same_members(r, members(views(toks@), i as int, mode, Seq::empty())),
        r matches Ok((_, j)) ==> i < j <= toks.len(),
        r matches Err((_, a)) ==> i <= a <= toks.len(),
{
    let mut j: usize = i;
    let mut acc: Vec<ChildNode> = Vec::new();
    while j < toks.len()
        invariant
            i <= j <= toks.len(),
            members(views(toks@), j as int, mode, views(acc@)) == members(
                views(toks@),
                i as int,
                mode,
                Seq::empty(),
            ),
        decreases toks.len() - j,
    {
        if is_close(toks, j) {
            return Ok((acc, j + 1));
        } else if at_word(toks, j, 0, ",") || kind_is(toks, j, 0, TokenKind::Comment) {
            j += 1;
        } else if at_word(toks, j, 0, "#") {
            match scan_attribute(toks, j) {
                Some(e) => {
                    j = e;
                },
                None => {
                    return Err((ParseErrorKind::UnexpectedToken, j));
                },
            }
        } else if at_word(toks, j, 0, "pub") {
            j = scan_visibility_end(toks, j);
        } else {
            match scan_member(toks, j, mode) {
                Ok((c, e)) => {
                    if e <= j {
                        return Err((ParseErrorKind::UnexpectedToken, j));
                    }
                    match c {
                        Some(c) => {
                            acc.push(c);
                        },
                        None => {},
                    }
                    j = e;
                },
                Err(e) => {
                    return Err(e);
                },
            }
        }
    }
    Err((ParseErrorKind::UnclosedDelimiter, j))
}


fn scan_idents(toks: &Vec<Token>, from: usize, to: usize, acc: &mut Vec<Vec<u8>>)
    ensures
        views(final(acc)@) == idents_in(views(toks@), from as int, to as int, views(old(acc)@)),
{
    let mut j: usize = from;
    while j < to && j < toks.len()
        invariant
            idents_in(views(toks@), j as int, to as int, views(acc@)) == idents_in(
                views(toks@),
                from as int,
                to as int,
                views(old(acc)@),
            ),
        decreases to - j,
    {
        if toks[j].kind == TokenKind::Identifier {
            acc.push(copy_bytes(&toks[j].text));
        }
        j += 1;
    }
}

/// Whether an executable result and a model result are the same prefix.
pub open spec fn same_prefix(
    r: Result<(Vec<u8>, Vec<Vec<u8>>, usize), (ParseErrorKind, usize)>,
    s: Result<(Seq<u8>, Seq<Seq<u8>>, int), Failure>,
) -> bool {
    match (r, s) {
        (Ok((d, m, j)), Ok((sd, sm, sj))) => d@ == sd && views(m@) == sm && j == sj,
        (Err((k, a)), Err((sk, sa))) => k == sk && a == sa,
        _ => false,
    }
}

fn scan_prefix(toks: &Vec<Token>, i: usize) -> (r: Result<
    (Vec<u8>, Vec<Vec<u8>>, usize),
    (ParseErrorKind, usize),
>)
    requires
        i <= toks.len(),
    ensures
        same_prefix(r, prefix(views(toks@), i as int, Seq::empty(), Seq::empty())),
        r matches Ok((_, _, j)) ==> i <= j <= toks.len(),
        r matches Err((_, a)) ==> i <= a < toks.len(),
{
    let mut j: usize = i;
    let mut docs: Vec<u8> = Vec::new();
    let mut markers: Vec<Vec<u8>> = Vec::new();
    while j < toks.len()
        invariant
            i <= j <= toks.len(),
            prefix(views(toks@), j as int, docs@, views(markers@)) == prefix(
                views(toks@),
                i as int,
                Seq::empty(),
                Seq::empty(),
            ),
        decreases toks.len() - j,
    {
        if kind_is(toks, j, 0, TokenKind::Comment) {
            let ghost before = docs@;
            append_bytes(&mut docs, toks[j].text.as_slice());
            docs.push(10u8);
            assert(docs@ =~= before + toks[j as int].text@ + seq![10u8]);
            j += 1;
        } else if at_word(toks, j, 0, "#") {
            match scan_attribute(toks, j) {
                Some(e) => {
                    let k: usize = if at_word(toks, j, 1, "!") {
                        j + 2
                    } else {
                        j + 1
                    };
                    if at_word(toks, k, 1, "derive") {
                        scan_idents(toks, k + 2, e, &mut markers);
                    }
                    j = e;
                },
                None => {
                    return Err((ParseErrorKind::UnexpectedToken, j));
                },
            }
        } else {
            return Ok((docs, markers, j));
        }
    }
    Ok((docs, markers, j))
}

/// Whether an executable result and a model result are the same path.
pub open spec fn same_path(
    r: Result<(Vec<u8>, usize), (ParseErrorKind, usize)>,
    s: Result<(Seq<u8>, int), Failure>,
) -> bool {
    match (r, s) {
        (Ok((n, j)), Ok((sn, sj))) => n@ == sn && j == sj,
        (Err((k, a)), Err((sk, sa))) => k == sk && a == sa,
        _ => false,
    }
}

fn scan_path(toks: &Vec<Token>, i: usize) -> (r: Result<(Vec<u8>, usize), (ParseErrorKind, usize)>)
    requires
        i <= toks.len(),
    ensures
        same_path(r, path_head(views(toks@), i as int)),
        r matches Ok((_, j)) ==> i < j <= toks.len(),
        r matches Err((_, a)) ==> i <= a <= toks.len(),
{
    let mut j: usize = i;
    while j < toks.len()
        invariant
            i <= j <= toks.len(),
            path_head(views(toks@), j as int) == path_head(views(toks@), i as int),
        decreases toks.len() - j,
    {
        if (kind_is(toks, j, 0, TokenKind::Identifier) || kind_is(toks, j, 0, TokenKind::Keyword))
            && at_word(toks, j, 1, ":") && at_word(toks, j, 2, ":") {
            j += 3;
        } else if kind_is(toks, j, 0, TokenKind::Identifier) {
            match scan_generics_opt(toks, j + 1) {
                Some((_, e)) => {
                    return Ok((copy_bytes(&toks[j].text), e));
                },
                None => {
                    return Err((ParseErrorKind::UnclosedDelimiter, j + 1));
                },
            }
        } else if at_word(toks, j, 0, "&") || at_word(toks, j, 0, "!") || at_word(toks, j, 0, "mut")
            || at_word(toks, j, 0, "dyn") {
            j += 1;
        } else if at_word(toks, j, 0, "'") && kind_is(toks, j, 1, TokenKind::Identifier) {
            j += 2;
        } else {
            return Err((ParseErrorKind::ExpectedName, j));
        }
    }
    Err((ParseErrorKind::ExpectedName, j))
}

/// What the parser makes of the tokens of one item.
pub enum Item {
    /// A declaration, and the index after it.
    Decl(DeclarationNode, usize),
    /// An item that the tree does not hold, and the index after it.
    Skip(usize),
    /// A malformed declaration: the reason and the index of the offending
    /// token.
    Fail(ParseErrorKind, usize),
}

/// Whether an executable item and a model item are the same.
pub open spec fn same_item(r: Item, s: ItemView) -> bool {
    match (r, s) {
        (Item::Decl(d, j), ItemView::Decl(sd, sj)) => d@ == sd && j == sj,
        (Item::Skip(j), ItemView::Skip(sj)) => j == sj,
        (Item::Fail(k, a), ItemView::Fail(sk, sa)) => k == sk && a == sa,
        _ => false,
    }
}

/// Whether the indices of an item lie between `lo` and `hi`.
pub open spec fn item_within(r: Item, lo: int, hi: int) -> bool {
    match r {
        Item::Decl(_, j) => lo < j <= hi,
        Item::Skip(j) => lo < j <= hi,
        Item::Fail(_, a) => lo <= a <= hi,
    }
}

fn make_draft(
    toks: &Vec<Token>,
    q: usize,
    docs: Vec<u8>,
    markers: Vec<Vec<u8>>,
    visibility: Visibility,
) -> (d: DeclarationNode)
    requires
        q < toks.len(),
    ensures
        d@ == draft(views(toks@), q as int, docs@, views(markers@), visibility),
{
    DeclarationNode {
        kind: DeclKind::Function,
        name: Vec::new(),
        children: Vec::new(),
        generics: Vec::new(),
        markers,
        types: Vec::new(),
        trait_name: None,
        visibility,
        docs,
        offset: toks[q].offset,
        line: toks[q].line,
        column: toks[q].column,
    }
}

fn mode_of(kind: DeclKind) -> (m: BodyMode)
    ensures
        m == body_mode(kind),
{
    match kind {
        DeclKind::Struct => BodyMode::Fields,
        DeclKind::Enum => BodyMode::Variants,
        _ => BodyMode::Methods,
    }
}

fn scan_body(toks: &Vec<Token>, g: usize, d: DeclarationNode) -> (r: Item)
    requires
        g <= toks.len(),
    ensures
        same_item(r, body(views(toks@), g as int, d@)),
        item_within(r, g as int, toks.len() as int),
{
    let mut d = d;
    if d.kind == DeclKind::Struct && at_word(toks, g, 0, "(") {
        match scan_members(toks, g + 1, BodyMode::Tuple) {
            Ok((kids, j)) => {
                let (uses, w) = scan_type_uses(toks, j, false, false);
                if at_word(toks, w, 0, ";") {
                    d.children = kids;
                    d.types = uses;
                    Item::Decl(d, w + 1)
                } else {
                    Item::Fail(ParseErrorKind::ExpectedBody, w)
                }
            },
            Err(e) => Item::Fail(e.0, e.1),
        }
    } else {
        let (uses, w) = scan_type_uses(toks, g, false, false);
        if d.kind == DeclKind::Struct && at_word(toks, w, 0, ";") {
            d.types = uses;
            Item::Decl(d, w + 1)
        } else if at_word(toks, w, 0, "{") {
            match scan_members(toks, w + 1, mode_of(d.kind)) {
                Ok((kids, j)) => {
                    d.children = kids;
                    d.types = uses;
                    Item::Decl(d, j)
                },
                Err(e) => Item::Fail(e.0, e.1),
            }
        } else {
            Item::Fail(ParseErrorKind::ExpectedBody, w)
        }
    }
}

fn scan_named(toks: &Vec<Token>, q: usize, d: DeclarationNode) -> (r: Item)
    requires
        q < toks.len(),
    ensures
        same_item(r, named_decl(views(toks@), q as int, d@)),
        item_within(r, q as int, toks.len() as int),
{
    let mut d = d;
    if !kind_is(toks, q, 1, TokenKind::Identifier) {
        return Item::Fail(ParseErrorKind::ExpectedName, q + 1);
    }
    match scan_generics_opt(toks, q + 2) {
        Some((generics, g)) => {
            d.name = copy_bytes(&toks[q + 1].text);
            d.generics = generics;
            scan_body(toks, g, d)
        },
        None => Item::Fail(ParseErrorKind::UnclosedDelimiter, q + 2),
    }
}

fn scan_fn(toks: &Vec<Token>, q: usize, d: DeclarationNode) -> (r: Item)
    requires
        q < toks.len(),
    ensures
        same_item(r, fn_decl(views(toks@), q as int, d@)),
        item_within(r, q as int, toks.len() as int),
{
    let mut d = d;
    if !kind_is(toks, q, 1, TokenKind::Identifier) {
        return Item::Fail(ParseErrorKind::ExpectedName, q + 1);
    }
    match scan_generics_opt(toks, q + 2) {
        Some((generics, g)) => {
            let (uses, w) = scan_type_uses(toks, g, false, false);
            d.name = copy_bytes(&toks[q + 1].text);
            d.generics = generics;
            d.types = uses;
            if at_word(toks, w, 0, ";") {
                Item::Decl(d, w + 1)
            } else if at_word(toks, w, 0, "{") {
                match scan_group(toks, w + 1) {
                    Some(e) => Item::Decl(d, e),
                    None => Item::Fail(ParseErrorKind::UnclosedDelimiter, w),
                }
            } else {
                Item::Fail(ParseErrorKind::ExpectedBody, w)
            }
        },
        None => Item::Fail(ParseErrorKind::UnclosedDelimiter, q + 2),
    }
}

fn scan_alias(toks: &Vec<Token>, q: usize, d: DeclarationNode) -> (r: Item)
    requires
        q < toks.len(),
    ensures
        same_item(r, alias_decl(views(toks@), q as int, d@)),
        item_within(r, q as int, toks.len() as int),
{
    let mut d = d;
    if !kind_is(toks, q, 1, TokenKind::Identifier) {
        return Item::Fail(ParseErrorKind::ExpectedName, q + 1);
    }
    match scan_generics_opt(toks, q + 2) {
        Some((generics, g)) => {
            if !at_word(toks, g, 0, "=") {
                return Item::Fail(ParseErrorKind::UnexpectedToken, g);
            }
            let (uses, w) = scan_type_uses(toks, g + 1, false, false);
            if at_word(toks, w, 0, ";") {
                d.name = copy_bytes(&toks[q + 1].text);
                d.generics = generics;
                d.types = uses;
                Item::Decl(d, w + 1)
            } else {
                Item::Fail(ParseErrorKind::UnexpectedToken, w)
            }
        },
        None => Item::Fail(ParseErrorKind::UnclosedDelimiter, q + 2),
    }
}

fn scan_impl(toks: &Vec<Token>, q: usize, d: DeclarationNode) -> (r: Item)
    requires
        q < toks.len(),
    ensures
        same_item(r, impl_decl(views(toks@), q as int, d@)),
        item_within(r, q as int, toks.len() as int),
{
    let mut d = d;
    match scan_generics_opt(toks, q + 1) {
        Some((generics, g)) => match scan_path(toks, g) {
            Ok((first, a)) => {
                d.generics = generics;
                if at_word(toks, a, 0, "for") {
                    match scan_path(toks, a + 1) {
                        Ok((second, b)) => {
                            d.name = second;
                            d.trait_name = Some(first);
                            scan_body(toks, b, d)
                        },
                        Err(e) => Item::Fail(e.0, e.1),
                    }
                } else {
                    d.name = first;
                    scan_body(toks, a, d)
                }
            },
            Err(e) => Item::Fail(e.0, e.1),
        },
        None => Item::Fail(ParseErrorKind::UnclosedDelimiter, q + 1),
    }
}

fn scan_declaration(toks: &Vec<Token>, q: usize, d: DeclarationNode) -> (r: Item)
    requires
        q < toks.len(),
    ensures
        same_item(r, declaration(views(toks@), q as int, d@)),
        item_within(r, q as int, toks.len() as int),
{
    let mut d = d;
    if at_word(toks, q, 0, "struct") || (at_word(toks, q, 0, "union") && kind_is(
        toks,
        q,
        1,
        TokenKind::Identifier,
    )) {
        d.kind = DeclKind::Struct;
        scan_named(toks, q, d)
    } else if at_word(toks, q, 0, "enum") {
        d.kind = DeclKind::Enum;
        scan_named(toks, q, d)
    } else if at_word(toks, q, 0, "trait") {
        d.kind = DeclKind::Trait;
        scan_named(toks, q, d)
    } else if at_word(toks, q, 0, "impl") {
        d.kind = DeclKind::Implementation;
        scan_impl(toks, q, d)
    } else if at_word(toks, q, 0, "fn") {
        d.kind = DeclKind::Function;
        scan_fn(toks, q, d)
    } else if at_word(toks, q, 0, "type") {
        d.kind = DeclKind::TypeAlias;
        scan_alias(toks, q, d)
    } else {
        Item::Fail(ParseErrorKind::ExpectedDeclaration, q)
    }
}

fn is_passed_over(toks: &Vec<Token>, i: usize) -> (r: bool)
    ensures
        r == passed_over(views(toks@), i as int),
{
    at_word(toks, i, 0, "use") || at_word(toks, i, 0, "mod") || at_word(toks, i, 0, "static") || (
    at_word(toks, i, 0, "const") && !is_const_fn(toks, i)) || (at_word(toks, i, 0, "extern") && (
    at_word(toks, i, 1, "crate") || at_word(toks, i, 1, "{") || (kind_is(
        toks,
        i,
        1,
        TokenKind::Literal,
    ) && at_word(toks, i, 2, "{")))) || (kind_is(toks, i, 0, TokenKind::Identifier) && at_word(
        toks,
        i,
        1,
        "!",
    ))
}

fn scan_visibility(toks: &Vec<Token>, i: usize) -> (r: (Visibility, usize))
    requires
        i <= toks.len(),
    ensures
        (r.0, r.1 as int) == visibility(views(toks@), i as int),
        i <= r.1 <= toks.len(),
{
    if !at_word(toks, i, 0, "pub") {
        (Visibility::Private, i)
    } else if at_word(toks, i, 1, "(") {
        (Visibility::Restricted, scan_visibility_end(toks, i))
    } else {
        (Visibility::Public, i + 1)
    }
}

fn scan_item(toks: &Vec<Token>, i: usize) -> (r: Item)
    requires
        i < toks.len(),
    ensures
        same_item(r, item(views(toks@), i as int)),
        item_within(r, i as int, toks.len() as int),
{
    reveal(item);
    match scan_prefix(toks, i) {
        Ok((docs, markers, k)) => {
            let (vis, v) = scan_visibility(toks, k);
            if at_word(toks, v, 0, ";") {
                Item::Skip(v + 1)
            } else if is_passed_over(toks, v) {
                Item::Skip(scan_item_end(toks, v + 1))
            } else {
                let q: usize = scan_qualifiers(toks, v);
                if q >= toks.len() {
                    Item::Fail(ParseErrorKind::ExpectedDeclaration, q)
                } else {
                    scan_declaration(toks, q, make_draft(toks, q, docs, markers, vis))
                }
            }
        },
        Err(e) => Item::Fail(e.0, e.1),
    }
}

fn is_item_start(toks: &Vec<Token>, i: usize) -> (r: bool)
    ensures
        r == starts_item(views(toks@), i as int),
{
    kind_is(toks, i, 0, TokenKind::Comment) || at_word(toks, i, 0, "#") || at_word(
        toks,
        i,
        0,
        "pub",
    ) || at_word(toks, i, 0, "struct") || at_word(toks, i, 0, "enum") || at_word(
        toks,
        i,
        0,
        "trait",
    ) || at_word(toks, i, 0, "impl") || at_word(toks, i, 0, "fn") || at_word(toks, i, 0, "type")
        || at_word(toks, i, 0, "use") || at_word(toks, i, 0, "mod") || at_word(
        toks,
        i,
        0,
        "const",
    ) || at_word(toks, i, 0, "static") || at_word(toks, i, 0, "unsafe") || at_word(
        toks,
        i,
        0,
        "async",
    ) || at_word(toks, i, 0, "extern")
}

fn scan_recover(toks: &Vec<Token>, i: usize) -> (e: usize)
    requires
        i <= toks.len(),
    ensures
        e as int == recover(views(toks@), i as int),
        i <= e <= toks.len(),
{
    let mut j: usize = i;
    while j < toks.len() && !is_item_start(toks, j)
        invariant
            i <= j <= toks.len(),
            recover(views(toks@), j as int) == recover(views(toks@), i as int),
        decreases toks.len() - j,
    {
        j += 1;
    }
    j
}

fn position_of(toks: &Vec<Token>, i: usize, reason: ParseErrorKind) -> (e: ParseError)
    ensures
        e == positioned(views(toks@), i as int, reason),
{
    let n: usize = toks.len();
    if i < n {
        ParseError { reason, offset: toks[i].offset, line: toks[i].line, column: toks[i].column }
    } else if n > 0 {
        ParseError {
            reason,
            offset: toks[n - 1].offset,
            line: toks[n - 1].line,
            column: toks[n - 1].column,
        }
    } else {
        ParseError { reason, offset: 0, line: 0, column: 0 }
    }
}

fn is_doc(w: &Vec<u8>) -> (r: bool)
    ensures
        r == is_doc_comment(w@),
{
    w.len() >= 3 && w[0] == 47 && ((w[1] == 47 && w[2] == 33) || (w[1] == 47 && w[2] == 47 && !(
    w.len() >= 4 && w[3] == 47)) || (w[1] == 42 && w[2] == 33) || (w[1] == 42 && w[2] == 42 && !(
    w.len() >= 4 && (w[3] == 42 || w[3] == 47))))
}

fn copy_token(tok: &Token) -> (r: Token)
    ensures
        r@ == tok@,
{
    Token {
        kind: tok.kind,
        text: copy_bytes(&tok.text),
        offset: tok.offset,
        line: tok.line,
        column: tok.column,
    }
}

fn copy_tokens(tokens: &Vec<Token>) -> (r: Vec<Token>)
    ensures
        views(r@) == views(tokens@),
{
    let mut out: Vec<Token> = Vec::new();
    let mut i: usize = 0;
    while i < tokens.len()
        invariant
            i <= tokens.len(),
            views(out@) == views(tokens@).subrange(0, i as int),
        decreases tokens.len() - i,
    {
        out.push(copy_token(&tokens[i]));
        assert(views(out@) =~= views(tokens@).subrange(0, i + 1));
        i += 1;
    }
    assert(views(tokens@).subrange(0, i as int) =~= views(tokens@));
    out
}

/// The tokens that the parser reads: all but the plain comments.
pub fn strip(tokens: &Vec<Token>) -> (r: Vec<Token>)
    ensures
        views(r@) == significant(views(tokens@)),
{
    let mut acc: Vec<Token> = Vec::new();
    let mut i: usize = 0;
    proof {
        reveal(Seq::filter);
        assert(views(tokens@).subrange(0, 0) =~= Seq::<crate::token::TokenView>::empty());
    }
    while i < tokens.len()
        invariant
            i <= tokens.len(),
            views(acc@) == significant(views(tokens@).subrange(0, i as int)),
        decreases tokens.len() - i,
    {
        let ghost before = views(tokens@).subrange(0, i as int);
        let ghost after = views(tokens@).subrange(0, i + 1);
        proof {
            reveal(Seq::filter);
            assert(after.drop_last() =~= before);
            assert(after.last() == tokens@[i as int]@);
        }
        let tok = &tokens[i];
        if tok.kind != TokenKind::Comment || is_doc(&tok.text) {
            acc.push(copy_token(tok));
        }
        i += 1;
    }
    assert(views(tokens@).subrange(0, i as int) =~= views(tokens@));
    acc
}

/// Parses a sequence of tokens into a tree of declarations. A malformed
/// declaration is reported and left out; parsing resumes at the next
/// declaration boundary, so the well-formed declarations of a text are
/// always returned. The tree keeps a copy of the tokens.
pub fn parse(tokens: &Vec<Token>) -> (r: (Cst, Vec<ParseError>))
    ensures
        r.0@ == parsed(views(tokens@)).0,
        r.1@ == parsed(views(tokens@)).1,
        r.0.source() == views(tokens@),
{
    let toks = strip(tokens);
    let mut decls: Vec<DeclarationNode> = Vec::new();
    let mut errors: Vec<ParseError> = Vec::new();
    let mut i: usize = 0;
    while i < toks.len()
        invariant
            i <= toks.len(),
            items(views(toks@), i as int, views(decls@), errors@) == items(
                views(toks@),
                0,
                Seq::empty(),
                Seq::empty(),
            ),
        decreases toks.len() - i,
    {
        match scan_item(&toks, i) {
            Item::Decl(d, j) => {
                decls.push(d);
                i = j;
            },
            Item::Skip(j) => {
                i = j;
            },
            Item::Fail(reason, k) => {
                let from: usize = if k > i {
                    k
                } else {
                    i + 1
                };
                errors.push(position_of(&toks, k, reason));
                i = scan_recover(&toks, from);
            },
        }
    }
    (Cst { declarations: decls, tokens: copy_tokens(tokens) }, errors)
}

} // verus!
