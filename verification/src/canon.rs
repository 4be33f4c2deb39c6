//! The canonical form of a text: its tokens, one to a line. The proofs here
//! show that lexing the canonical form gives the tokens back.

use vstd::prelude::*;
use crate::text::{views, append_bytes};
use crate::syntax::Cst;
use crate::token::{LexError, Token, TokenKind, TokenView};
use crate::lexer::{
    block_comment_end, char_end, char_width, errors_from, in_class, is_digit, is_name_part,
    is_name_start, is_space, lemma_run_end_bounds, lexeme, name_lexeme, number_end,
    prefixed_literal, raw_string_end, run_end, string_end, token_at, tokens_from, ByteClass,
    LexemeClass, APOSTROPHE, BACKSLASH, DOT, LOWER_B, LOWER_R, NEWLINE, QUOTE, SLASH, STAR,
};

verus! {

/// `u[i..e]` and `v[i2..]` hold the same bytes.
pub open spec fn agree(u: Seq<u8>, i: int, v: Seq<u8>, i2: int, e: int) -> bool {
    &&& 0 <= i <= e <= u.len()
    &&& 0 <= i2
    &&& i2 + (e - i) <= v.len()
    &&& forall|x: int| i <= x < e ==> #[trigger] u[x] == v[x - i + i2]
}

/// No byte of class `c` stands at `j`.
pub open spec fn stops(v: Seq<u8>, j: int, c: ByteClass) -> bool {
    j >= v.len() || !in_class(c, v[j])
}

pub proof fn lemma_string_end_bounds(u: Seq<u8>, i: int)
    requires
        0 <= i,
    ensures
        string_end(u, i) matches Some(e) ==> i < e <= u.len() && u[e - 1] == QUOTE,
    decreases u.len() - i,
{
    if i < u.len() && u[i] != QUOTE {
        if u[i] == BACKSLASH {
            if i + 1 < u.len() {
                lemma_string_end_bounds(u, i + 2);
            }
        } else {
            lemma_string_end_bounds(u, i + 1);
        }
    }
}

pub proof fn lemma_raw_string_end_bounds(u: Seq<u8>, i: int, hashes: int)
    requires
        0 <= i,
        0 <= hashes,
    ensures
        raw_string_end(u, i, hashes) matches Some(e) ==> i < e <= u.len(),
    decreases u.len() - i,
{
    if i < u.len() {
        lemma_run_end_bounds(u, i + 1, ByteClass::Hash);
        if !(u[i] == QUOTE && run_end(u, i + 1, ByteClass::Hash) - (i + 1) >= hashes) {
            lemma_raw_string_end_bounds(u, i + 1, hashes);
        }
    }
}

pub proof fn lemma_block_comment_end_bounds(u: Seq<u8>, i: int, depth: int)
    requires
        0 <= i,
    ensures
        block_comment_end(u, i, depth) matches Some(e) ==> i < e <= u.len(),
    decreases u.len() - i,
{
    if i < u.len() && depth >= 1 {
        if u[i] == STAR && i + 1 < u.len() && u[i + 1] == SLASH {
            if depth != 1 {
                lemma_block_comment_end_bounds(u, i + 2, depth - 1);
            }
        } else if u[i] == SLASH && i + 1 < u.len() && u[i + 1] == STAR {
            lemma_block_comment_end_bounds(u, i + 2, depth + 1);
        } else {
            lemma_block_comment_end_bounds(u, i + 1, depth);
        }
    }
}

/// Every byte of a run is of its class.
proof fn lemma_run_end_inside(u: Seq<u8>, i: int, c: ByteClass, x: int)
    requires
        0 <= i <= x < run_end(u, i, c),
    ensures
        x < u.len(),
        in_class(c, u[x]),
    decreases x - i,
{
    lemma_run_end_bounds(u, i, c);
    if 0 <= i < u.len() && in_class(c, u[i]) {
        if x > i {
            lemma_run_end_inside(u, i + 1, c, x);
        }
    }
}

/// A run ends where the text ends or a byte of another class stands.
proof fn lemma_run_end_stops(u: Seq<u8>, i: int, c: ByteClass)
    requires
        0 <= i,
    ensures
        stops(u, run_end(u, i, c), c),
    decreases u.len() - i,
{
    if 0 <= i < u.len() && in_class(c, u[i]) {
        lemma_run_end_stops(u, i + 1, c);
    }
}

/// A run that is copied, and stopped where it ended, is the same run.
proof fn lemma_run_end_agree(u: Seq<u8>, i: int, v: Seq<u8>, i2: int, c: ByteClass, e: int)
    requires
        agree(u, i, v, i2, e),
        forall|x: int| i <= x < e ==> in_class(c, #[trigger] u[x]),
        stops(v, i2 + (e - i), c),
    ensures
        run_end(v, i2, c) == i2 + (e - i),
    decreases e - i,
{
    if i < e {
        assert(u[i] == v[i2]);
        assert(in_class(c, u[i]));
        lemma_run_end_agree(u, i + 1, v, i2 + 1, c, e);
    }
}

/// A string that is copied ends where its copy ends.
proof fn lemma_string_end_agree(u: Seq<u8>, i: int, v: Seq<u8>, i2: int, e: int)
    requires
        agree(u, i, v, i2, e),
        string_end(u, i) == Some(e),
    ensures
        string_end(v, i2) == Some(i2 + (e - i)),
    decreases e - i,
{
    lemma_string_end_bounds(u, i);
    assert(u[i] == v[i2]);
    if u[i] == QUOTE {
    } else if u[i] == BACKSLASH {
        lemma_string_end_bounds(u, i + 2);
        lemma_string_end_agree(u, i + 2, v, i2 + 2, e);
    } else {
        lemma_string_end_bounds(u, i + 1);
        lemma_string_end_agree(u, i + 1, v, i2 + 1, e);
    }
}

/// A raw string that is copied ends where its copy ends.
proof fn lemma_raw_string_end_agree(
    u: Seq<u8>,
    i: int,
    v: Seq<u8>,
    i2: int,
    hashes: int,
    e: int,
)
    requires
        agree(u, i, v, i2, e),
        0 <= hashes,
        raw_string_end(u, i, hashes) == Some(e),
    ensures
        raw_string_end(v, i2, hashes) == Some(i2 + (e - i)),
    decreases e - i,
{
    lemma_raw_string_end_bounds(u, i, hashes);
    assert(u[i] == v[i2]);
    let r = run_end(u, i + 1, ByteClass::Hash);
    let r2 = run_end(v, i2 + 1, ByteClass::Hash);
    lemma_run_end_bounds(u, i + 1, ByteClass::Hash);
    lemma_run_end_bounds(v, i2 + 1, ByteClass::Hash);
    if u[i] == QUOTE && r - (i + 1) >= hashes {
        // The closing hashes lie inside the copy, so the run in `v` is at
        // least as long.
        assert(e == i + 1 + hashes);
        if r2 - (i2 + 1) < hashes {
            lemma_run_end_stops(v, i2 + 1, ByteClass::Hash);
            let x = r2 - i2 + i;
            lemma_run_end_inside(u, i + 1, ByteClass::Hash, x);
            assert(u[x] == v[x - i + i2]);
            assert(false);
        }
    } else {
        lemma_raw_string_end_bounds(u, i + 1, hashes);
        if u[i] == QUOTE {
            // The run of hashes in `u` is too short, and it ends inside the
            // copy, so the run in `v` ends at the same place.
            lemma_run_end_stops(u, i + 1, ByteClass::Hash);
            assert(r < i + 1 + hashes);
            assert(r < e) by {
                lemma_raw_string_end_tail(u, i + 1, hashes);
            }
            assert forall|x: int| i + 1 <= x < r implies in_class(
                ByteClass::Hash,
                #[trigger] u[x],
            ) by {
                lemma_run_end_inside(u, i + 1, ByteClass::Hash, x);
            }
            assert(u[r] == v[r - i + i2]);
            lemma_run_end_agree(u, i + 1, v, i2 + 1, ByteClass::Hash, r);
        }
        lemma_raw_string_end_agree(u, i + 1, v, i2 + 1, hashes, e);
    }
}

/// A raw string holds at least its closing quote and hashes.
proof fn lemma_raw_string_end_tail(u: Seq<u8>, i: int, hashes: int)
    requires
        0 <= i,
        0 <= hashes,
    ensures
        raw_string_end(u, i, hashes) matches Some(e) ==> i + 1 + hashes <= e,
    decreases u.len() - i,
{
    if i < u.len() {
        if !(u[i] == QUOTE && run_end(u, i + 1, ByteClass::Hash) - (i + 1) >= hashes) {
            lemma_raw_string_end_tail(u, i + 1, hashes);
        }
    }
}

/// A block comment that is copied ends where its copy ends.
proof fn lemma_block_comment_end_agree(
    u: Seq<u8>,
    i: int,
    v: Seq<u8>,
    i2: int,
    depth: int,
    e: int,
)
    requires
        agree(u, i, v, i2, e),
        block_comment_end(u, i, depth) == Some(e),
    ensures
        block_comment_end(v, i2, depth) == Some(i2 + (e - i)),
    decreases e - i,
{
    lemma_block_comment_end_bounds(u, i, depth);
    assert(u[i] == v[i2]);
    if i + 1 < e {
        assert(u[i + 1] == v[i + 1 - i + i2]);
    }
    if u[i] == STAR && i + 1 < u.len() && u[i + 1] == SLASH {
        if depth != 1 {
            lemma_block_comment_end_bounds(u, i + 2, depth - 1);
            lemma_block_comment_end_agree(u, i + 2, v, i2 + 2, depth - 1, e);
        }
    } else if u[i] == SLASH && i + 1 < u.len() && u[i + 1] == STAR {
        lemma_block_comment_end_bounds(u, i + 2, depth + 1);
        lemma_block_comment_end_agree(u, i + 2, v, i2 + 2, depth + 1, e);
    } else {
        lemma_block_comment_end_bounds(u, i + 1, depth);
        if i + 1 == e {
            assert(false);
        }
        lemma_block_comment_end_agree(u, i + 1, v, i2 + 1, depth, e);
    }
}


/// The bytes of a run that ends at `e` are of its class.
proof fn lemma_run_all_inside(u: Seq<u8>, i: int, c: ByteClass)
    requires
        0 <= i,
    ensures
        forall|x: int| i <= x < run_end(u, i, c) ==> in_class(c, #[trigger] u[x]),
{
    assert forall|x: int| i <= x < run_end(u, i, c) implies in_class(c, #[trigger] u[x]) by {
        lemma_run_end_inside(u, i, c, x);
    }
}

/// A run that is copied up to the byte that ends it is the same run.
proof fn lemma_run_copy(u: Seq<u8>, i: int, v: Seq<u8>, i2: int, c: ByteClass, e: int)
    requires
        agree(u, i, v, i2, e),
        run_end(u, i, c) < e,
    ensures
        run_end(v, i2, c) == i2 + (run_end(u, i, c) - i),
{
    let r = run_end(u, i, c);
    lemma_run_end_bounds(u, i, c);
    lemma_run_all_inside(u, i, c);
    lemma_run_end_stops(u, i, c);
    assert(u[r] == v[r - i + i2]);
    assert(agree(u, i, v, i2, r));
    lemma_run_end_agree(u, i, v, i2, c, r);
}

/// A run that is copied whole and followed by a line feed is the same run,
/// unless it is a run of white space.
proof fn lemma_run_to_newline(u: Seq<u8>, i: int, v: Seq<u8>, i2: int, c: ByteClass, e: int)
    requires
        agree(u, i, v, i2, e),
        run_end(u, i, c) == e,
        c != ByteClass::Space,
        i2 + (e - i) < v.len(),
        v[i2 + (e - i)] == NEWLINE,
    ensures
        run_end(v, i2, c) == i2 + (e - i),
{
    lemma_run_all_inside(u, i, c);
    lemma_run_end_agree(u, i, v, i2, c, e);
}

/// A character literal that is copied ends where its copy ends.
proof fn lemma_char_end_agree(u: Seq<u8>, i: int, v: Seq<u8>, i2: int, e: int)
    requires
        agree(u, i, v, i2, e),
        char_end(u, i) == Some(e),
    ensures
        char_end(v, i2) == Some(i2 + (e - i)),
{
    assert(i + 1 < u.len());
    if u[i + 1] == BACKSLASH {
        let j = run_end(u, i + 3, ByteClass::CharBody);
        lemma_run_end_bounds(u, i + 3, ByteClass::CharBody);
        assert(e == j + 1);
        assert(u[i + 1] == v[i + 1 - i + i2]);
        assert(agree(u, i + 3, v, i2 + 3, e));
        lemma_run_copy(u, i + 3, v, i2 + 3, ByteClass::CharBody, e);
        assert(u[j] == v[j - i + i2]);
    } else {
        let j = i + 1 + char_width(u[i + 1]);
        assert(e == j + 1);
        assert(u[i + 1] == v[i + 1 - i + i2]);
        assert(u[j] == v[j - i + i2]);
    }
}

/// A number that is copied and followed by a line feed ends where its copy
/// ends.
proof fn lemma_number_end_agree(u: Seq<u8>, i: int, v: Seq<u8>, i2: int, e: int)
    requires
        agree(u, i, v, i2, e),
        number_end(u, i) == e,
        i2 + (e - i) < v.len(),
        v[i2 + (e - i)] == NEWLINE,
    ensures
        number_end(v, i2) == i2 + (e - i),
{
    let j = run_end(u, i, ByteClass::NamePart);
    lemma_run_end_bounds(u, i, ByteClass::NamePart);
    if j + 1 < u.len() && u[j] == DOT && is_digit(u[j + 1]) {
        lemma_run_end_bounds(u, j + 2, ByteClass::NamePart);
        lemma_run_copy(u, i, v, i2, ByteClass::NamePart, e);
        assert(u[j] == v[j - i + i2]);
        assert(u[j + 1] == v[j + 1 - i + i2]);
        assert(agree(u, j + 2, v, i2 + (j + 2 - i), e));
        lemma_run_to_newline(u, j + 2, v, i2 + (j + 2 - i), ByteClass::NamePart, e);
    } else {
        lemma_run_to_newline(u, i, v, i2, ByteClass::NamePart, e);
    }
}

/// A name that is copied and followed by a line feed is the same name.
proof fn lemma_name_agree(u: Seq<u8>, p: int, v: Seq<u8>, q: int, e: int)
    requires
        agree(u, p, v, q, e),
        p < e,
        name_lexeme(u, p).1 == e,
        q + (e - p) < v.len(),
        v[q + (e - p)] == NEWLINE,
    ensures
        name_lexeme(v, q) == (name_lexeme(u, p).0, q + (e - p)),
{
    assert(agree(u, p + 1, v, q + 1, e));
    lemma_run_to_newline(u, p + 1, v, q + 1, ByteClass::NamePart, e);
    assert(v.subrange(q, q + (e - p)) =~= u.subrange(p, e)) by {
        assert forall|k: int| 0 <= k < e - p implies v.subrange(q, q + (e - p))[k] == u.subrange(
            p,
            e,
        )[k] by {
            assert(u[p + k] == v[p + k - p + q]);
        }
    }
}

/// A literal with a prefix letter that is copied is the same literal.
proof fn lemma_prefixed_agree(u: Seq<u8>, p: int, v: Seq<u8>, q: int, e: int)
    requires
        agree(u, p, v, q, e),
        p < e,
        prefixed_literal(u, p) == Some((LexemeClass::Token(TokenKind::Literal), e)),
    ensures
        prefixed_literal(v, q) == Some((LexemeClass::Token(TokenKind::Literal), q + (e - p))),
{
    let b = u[p];
    assert(u[p] == v[q]);
    let double = b == LOWER_B && p + 1 < u.len() && u[p + 1] == LOWER_R;
    let pp = if double {
        p + 2
    } else {
        p + 1
    };
    if b == LOWER_R || double {
        let h = run_end(u, pp, ByteClass::Hash);
        lemma_run_end_bounds(u, pp, ByteClass::Hash);
        lemma_raw_string_end_bounds(u, h + 1, h - pp);
        assert(h < e);
        if pp > p + 1 {
            assert(u[p + 1] == v[p + 1 - p + q]);
        } else {
            if p + 1 < e {
                assert(u[p + 1] == v[p + 1 - p + q]);
            }
        }
        assert(agree(u, pp, v, q + (pp - p), e));
        lemma_run_copy(u, pp, v, q + (pp - p), ByteClass::Hash, e);
        assert(u[h] == v[h - p + q]);
        assert(agree(u, h + 1, v, q + (h + 1 - p), e));
        lemma_raw_string_end_agree(u, h + 1, v, q + (h + 1 - p), h - pp, e);
    } else if b == LOWER_B && pp < u.len() && u[pp] == QUOTE {
        lemma_string_end_bounds(u, pp + 1);
        assert(u[p + 1] == v[p + 1 - p + q]);
        assert(agree(u, pp + 1, v, q + 2, e));
        lemma_string_end_agree(u, pp + 1, v, q + 2, e);
    } else {
        assert(b == LOWER_B && pp < u.len() && u[pp] == APOSTROPHE);
        assert(char_end(u, pp) == Some(e));
        assert(u[p + 1] == v[p + 1 - p + q]);
        assert(agree(u, pp, v, q + 1, e));
        lemma_char_end_agree(u, pp, v, q + 1, e);
    }
}

/// A name that is copied and followed by a line feed is no literal with a
/// prefix letter.
proof fn lemma_prefixed_none(u: Seq<u8>, p: int, v: Seq<u8>, q: int, e: int)
    requires
        agree(u, p, v, q, e),
        p < e,
        is_name_start(u[p]),
        prefixed_literal(u, p) is None,
        e == run_end(u, p + 1, ByteClass::NamePart),
        q + (e - p) < v.len(),
        v[q + (e - p)] == NEWLINE,
    ensures
        prefixed_literal(v, q) is None,
{
    assert(u[p] == v[q]);
    lemma_run_all_inside(u, p + 1, ByteClass::NamePart);
    if p + 1 < e {
        assert(u[p + 1] == v[p + 1 - p + q]);
        assert(is_name_part(u[p + 1]));
    }
    if p + 2 < e {
        assert(u[p + 2] == v[p + 2 - p + q]);
        assert(is_name_part(u[p + 2]));
    }
    let b = v[q];
    let double = b == LOWER_B && q + 1 < v.len() && v[q + 1] == LOWER_R;
    let pp = if double {
        q + 2
    } else {
        q + 1
    };
    // The byte after the prefix is a line feed or part of the name, so no
    // hash sign and no quote stands there.
    assert(pp < v.len());
    assert(v[pp] == NEWLINE || is_name_part(v[pp]));
    assert(run_end(v, pp, ByteClass::Hash) == pp);
}

/// A token that is copied and followed by a line feed is the same token.
pub proof fn lemma_lexeme_agree(u: Seq<u8>, p: int, v: Seq<u8>, q: int, kind: TokenKind, e: int)
    requires
        agree(u, p, v, q, e),
        p < e,
        lexeme(u, p) == (LexemeClass::Token(kind), e),
        q + (e - p) < v.len(),
        v[q + (e - p)] == NEWLINE,
    ensures
        lexeme(v, q) == (LexemeClass::Token(kind), q + (e - p)),
{
    reveal(lexeme);
    let b = u[p];
    assert(u[p] == v[q]);
    let next = if p + 1 < u.len() {
        Some(u[p + 1])
    } else {
        None
    };
    let next2 = if q + 1 < v.len() {
        Some(v[q + 1])
    } else {
        None
    };
    if p + 1 < e {
        assert(u[p + 1] == v[p + 1 - p + q]);
        assert(next == next2);
    } else {
        assert(next2 == Some(NEWLINE));
    }
    if is_space(b) {
    } else if b == SLASH && next == Some(SLASH) {
        lemma_run_end_bounds(u, p + 2, ByteClass::SameLine);
        assert(agree(u, p + 2, v, q + 2, e));
        lemma_run_to_newline(u, p + 2, v, q + 2, ByteClass::SameLine, e);
    } else if b == SLASH && next == Some(STAR) {
        lemma_block_comment_end_bounds(u, p + 2, 1);
        assert(agree(u, p + 2, v, q + 2, e));
        lemma_block_comment_end_agree(u, p + 2, v, q + 2, 1, e);
    } else if b == QUOTE {
        lemma_string_end_bounds(u, p + 1);
        assert(agree(u, p + 1, v, q + 1, e));
        lemma_string_end_agree(u, p + 1, v, q + 1, e);
    } else if b == APOSTROPHE {
        match char_end(u, p) {
            Some(_) => {
                lemma_char_end_agree(u, p, v, q, e);
            },
            None => {},
        }
    } else if is_digit(b) {
        lemma_run_end_bounds(u, p + 1, ByteClass::NamePart);
        assert(agree(u, p + 1, v, q + 1, e));
        lemma_number_end_agree(u, p + 1, v, q + 1, e);
    } else if is_name_start(b) {
        match prefixed_literal(u, p) {
            Some(l) => {
                lemma_prefixed_token(u, p);
                lemma_prefixed_agree(u, p, v, q, e);
            },
            None => {
                lemma_prefixed_none(u, p, v, q, e);
                lemma_name_agree(u, p, v, q, e);
            },
        }
    } else {
    }
}

/// A literal with a prefix letter is a literal or a malformed string.
proof fn lemma_prefixed_token(u: Seq<u8>, p: int)
    ensures
        prefixed_literal(u, p) matches Some(l) ==> l.0 == LexemeClass::Token(TokenKind::Literal)
            || l.0 == LexemeClass::Broken(crate::token::LexErrorKind::UnterminatedString),
{
}


/// A token without its position.
pub open spec fn bare_token(t: TokenView) -> TokenView {
    TokenView { kind: t.kind, text: t.text, offset: 0, line: 0, column: 0 }
}

/// Tokens without their positions: what is left is the kind and the text of
/// each.
pub open spec fn bare(ts: Seq<TokenView>) -> Seq<TokenView> {
    Seq::new(ts.len(), |i: int| bare_token(ts[i]))
}

/// The texts of the tokens, each followed by a line feed.
pub open spec fn lines(ts: Seq<TokenView>) -> Seq<u8>
    decreases ts.len(),
{
    if ts.len() == 0 {
        Seq::empty()
    } else {
        lines(ts.drop_last()) + ts.last().text + seq![NEWLINE]
    }
}

/// The canonical form of a text: its tokens, comments among them, one to a
/// line.
pub open spec fn canonical(text: Seq<u8>) -> Seq<u8> {
    lines(tokens_from(text, 0))
}

/// The canonical form of `text[pos..]`, read off the text.
pub open spec fn canonical_from(text: Seq<u8>, pos: int) -> Seq<u8>
    decreases text.len() - pos,
{
    if pos < 0 || pos >= text.len() {
        Seq::empty()
    } else {
        let (class, end) = lexeme(text, pos);
        if end <= pos || end > text.len() {
            Seq::empty()
        } else {
            match class {
                LexemeClass::Token(_) => text.subrange(pos, end) + seq![NEWLINE] + canonical_from(
                    text,
                    end,
                ),
                _ => canonical_from(text, end),
            }
        }
    }
}

proof fn lemma_lines_prepend(t: TokenView, rest: Seq<TokenView>)
    ensures
        lines(seq![t] + rest) == t.text + seq![NEWLINE] + lines(rest),
    decreases rest.len(),
{
    let all = seq![t] + rest;
    if rest.len() == 0 {
        assert(all.drop_last() =~= Seq::<TokenView>::empty());
        assert(lines(all.drop_last()) =~= Seq::<u8>::empty());
        assert(lines(all) =~= t.text + seq![NEWLINE] + lines(rest));
    } else {
        assert(all.drop_last() =~= seq![t] + rest.drop_last());
        lemma_lines_prepend(t, rest.drop_last());
        assert(all.last() == rest.last());
        assert(lines(all) =~= t.text + seq![NEWLINE] + lines(rest));
    }
}

/// The lines of the tokens of a text are its canonical form as read off the
/// text.
proof fn lemma_lines_of_tokens(text: Seq<u8>, pos: int)
    ensures
        lines(tokens_from(text, pos)) == canonical_from(text, pos),
    decreases text.len() - pos,
{
    if 0 <= pos < text.len() {
        let (class, end) = lexeme(text, pos);
        if !(end <= pos || end > text.len()) {
            lemma_lines_of_tokens(text, end);
            match class {
                LexemeClass::Token(kind) => {
                    lemma_lines_prepend(token_at(text, kind, pos, end), tokens_from(text, end));
                },
                _ => {},
            }
        }
    }
}

/// The lines of tokens do not depend on where the tokens stood.
proof fn lemma_lines_bare(ts: Seq<TokenView>)
    ensures
        lines(bare(ts)) == lines(ts),
    decreases ts.len(),
{
    if ts.len() > 0 {
        assert(bare(ts).drop_last() =~= bare(ts.drop_last()));
        lemma_lines_bare(ts.drop_last());
    }
}

/// The canonical form does not start with white space.
proof fn lemma_first_byte(text: Seq<u8>, pos: int)
    ensures
        canonical_from(text, pos).len() > 0 ==> !is_space(canonical_from(text, pos)[0]),
    decreases text.len() - pos,
{
    if 0 <= pos < text.len() {
        let (class, end) = lexeme(text, pos);
        if !(end <= pos || end > text.len()) {
            match class {
                LexemeClass::Token(_) => {
                    reveal(lexeme);
                    assert(canonical_from(text, pos)[0] == text[pos]);
                },
                _ => {
                    lemma_first_byte(text, end);
                },
            }
        }
    }
}

/// Lexing the canonical form of `text[pos..]`, wherever it stands after a
/// prefix `head` that ends a line, gives the tokens of `text[pos..]` and no
/// error.
proof fn lemma_relex(text: Seq<u8>, pos: int, head: Seq<u8>)
    ensures
        bare(tokens_from(head + canonical_from(text, pos), head.len() as int)) == bare(
            tokens_from(text, pos),
        ),
        errors_from(head + canonical_from(text, pos), head.len() as int) == Seq::<
            LexError,
        >::empty(),
    decreases text.len() - pos,
{
    let v = head + canonical_from(text, pos);
    let q = head.len() as int;
    if 0 <= pos < text.len() {
        let (class, end) = lexeme(text, pos);
        if !(end <= pos || end > text.len()) {
            match class {
                LexemeClass::Token(kind) => {
                    let w = text.subrange(pos, end);
                    let rest = canonical_from(text, end);
                    let n = end - pos;
                    assert(v =~= head + w + seq![NEWLINE] + rest);
                    assert(v[q + n] == NEWLINE);
                    assert forall|x: int| pos <= x < end implies #[trigger] text[x] == v[x - pos
                        + q] by {
                        assert(v[x - pos + q] == w[x - pos]);
                    }
                    lemma_lexeme_agree(text, pos, v, q, kind, end);
                    // The line feed after the token is all the white space
                    // there is before the next token.
                    lemma_first_byte(text, end);
                    assert(q + n + 1 < v.len() ==> v[q + n + 1] == rest[0]);
                    assert(lexeme(v, q + n) == (LexemeClass::Blank, q + n + 1)) by {
                        reveal(lexeme);
                    }
                    let next_head = head + w + seq![NEWLINE];
                    assert(v =~= next_head + rest);
                    lemma_relex(text, end, next_head);
                    assert(tokens_from(v, q + n) == tokens_from(v, q + n + 1));
                    assert(errors_from(v, q + n) == errors_from(v, q + n + 1));
                    let mine = token_at(v, kind, q, q + n);
                    let theirs = token_at(text, kind, pos, end);
                    assert(mine.text =~= theirs.text);
                    assert(tokens_from(v, q) == seq![mine] + tokens_from(v, q + n + 1));
                    assert(tokens_from(text, pos) == seq![theirs] + tokens_from(text, end));
                    assert(bare(seq![mine] + tokens_from(v, q + n + 1)) =~= bare(
                        seq![theirs] + tokens_from(text, end),
                    )) by {
                        let a = bare(tokens_from(v, q + n + 1));
                        let b = bare(tokens_from(text, end));
                        assert(a == b);
                        assert(a.len() == b.len());
                        assert forall|k: int| 0 <= k < a.len() + 1 implies bare(
                            seq![mine] + tokens_from(v, q + n + 1),
                        )[k] == bare(seq![theirs] + tokens_from(text, end))[k] by {
                            if k > 0 {
                                assert(a[k - 1] == b[k - 1]);
                            }
                        }
                    }
                },
                _ => {
                    lemma_relex(text, end, head);
                },
            }
        } else {
            assert(v =~= head);
        }
    } else {
        assert(v =~= head);
    }
}

/// Lexing the canonical form of a text gives the tokens of the text, each
/// with its kind and its bytes, and no lexical error. So the canonical form
/// of the canonical form is the canonical form.
pub proof fn lemma_canonical_is_stable(text: Seq<u8>)
    ensures
        bare(tokens_from(canonical(text), 0)) == bare(tokens_from(text, 0)),
        errors_from(canonical(text), 0) == Seq::<LexError>::empty(),
        canonical(canonical(text)) == canonical(text),
{
    lemma_lines_of_tokens(text, 0);
    lemma_relex(text, 0, Seq::empty());
    assert(Seq::<u8>::empty() + canonical_from(text, 0) =~= canonical_from(text, 0));
    lemma_lines_bare(tokens_from(canonical(text), 0));
    lemma_lines_bare(tokens_from(text, 0));
}


/// Writes tokens out, one to a line.
pub fn write_lines(tokens: &Vec<Token>) -> (out: Vec<u8>)
    ensures
        out@ == lines(views(tokens@)),
{
    let mut out: Vec<u8> = Vec::new();
    let mut i: usize = 0;
    assert(views(tokens@).subrange(0, 0) =~= Seq::<TokenView>::empty());
    while i < tokens.len()
        invariant
            i <= tokens.len(),
            out@ == lines(views(tokens@).subrange(0, i as int)),
        decreases tokens.len() - i,
    {
        let ghost before = views(tokens@).subrange(0, i as int);
        let ghost after = views(tokens@).subrange(0, i + 1);
        assert(after.drop_last() =~= before);
        assert(after.last() == tokens@[i as int]@);
        append_bytes(&mut out, tokens[i].text.as_slice());
        out.push(NEWLINE);
        assert(out@ =~= lines(before) + tokens@[i as int]@.text + seq![NEWLINE]);
        i += 1;
    }
    assert(views(tokens@).subrange(0, i as int) =~= views(tokens@));
    out
}

impl Cst {
    /// The canonical form of the text that the tree was parsed from: its
    /// tokens, one to a line.
    pub fn canonical(&self) -> (out: Vec<u8>)
        ensures
            out@ == lines(self.source()),
    {
        write_lines(&self.tokens)
    }
}

} // verus!
