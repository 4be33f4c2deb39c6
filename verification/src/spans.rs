//! The tokens of a text are spans of the text, in order: every lexeme
//! advances, and every token holds the bytes between its offset and the
//! start of what follows it.

use vstd::prelude::*;
use crate::token::TokenView;
use crate::lexer::{
    lemma_run_end_bounds, lexeme, line_of, line_start, run_end, tokens, tokens_from, ByteClass,
    LexemeClass,
};
use crate::canon::{
    lemma_block_comment_end_bounds, lemma_raw_string_end_bounds, lemma_string_end_bounds,
};

verus! {

/// Every lexeme ends after its start and inside the text, so lexing always
/// reaches the end of the text.
pub proof fn lemma_lexeme_advances(text: Seq<u8>, pos: int)
    requires
        0 <= pos < text.len(),
    ensures
        pos < lexeme(text, pos).1 <= text.len(),
{
    reveal(lexeme);
    lemma_run_end_bounds(text, pos + 1, ByteClass::Space);
    lemma_run_end_bounds(text, pos + 1, ByteClass::NamePart);
    lemma_run_end_bounds(text, pos + 1, ByteClass::SameLine);
    lemma_run_end_bounds(text, pos + 2, ByteClass::SameLine);
    lemma_run_end_bounds(text, pos + 1, ByteClass::Hash);
    lemma_run_end_bounds(text, pos + 2, ByteClass::Hash);
    lemma_run_end_bounds(text, pos + 3, ByteClass::SameLine);
    lemma_string_end_bounds(text, pos + 1);
    lemma_string_end_bounds(text, pos + 2);
    lemma_block_comment_end_bounds(text, pos + 2, 1);
    // Numbers: one or two runs of name bytes.
    let j = run_end(text, pos + 1, ByteClass::NamePart);
    lemma_run_end_bounds(text, j + 2, ByteClass::NamePart);
    // Character literals after an escape.
    lemma_run_end_bounds(text, pos + 3, ByteClass::CharBody);
    lemma_run_end_bounds(text, pos + 4, ByteClass::CharBody);
    // Raw strings: the hashes, then the body.
    let h1 = run_end(text, pos + 1, ByteClass::Hash);
    let h2 = run_end(text, pos + 2, ByteClass::Hash);
    lemma_raw_string_end_bounds(text, h1 + 1, h1 - (pos + 1));
    lemma_raw_string_end_bounds(text, h2 + 1, h2 - (pos + 2));
    lemma_run_end_bounds(text, h1 + 1, ByteClass::SameLine);
    lemma_run_end_bounds(text, h2 + 1, ByteClass::SameLine);
}

proof fn lemma_line_bounds(text: Seq<u8>, pos: int)
    requires
        0 <= pos <= text.len(),
    ensures
        0 <= line_of(text, pos) <= pos,
        0 <= line_start(text, pos) <= pos,
    decreases pos,
{
    if pos > 0 {
        lemma_line_bounds(text, pos - 1);
    }
}

/// Whether a token holds the bytes of the text at its offset, and stands on
/// the line and in the column of that offset.
pub open spec fn is_span(text: Seq<u8>, t: TokenView) -> bool {
    &&& t.text.len() > 0
    &&& t.offset + t.text.len() <= text.len()
    &&& t.text == text.subrange(t.offset as int, t.offset + t.text.len())
    &&& t.line == line_of(text, t.offset as int)
    &&& t.column == t.offset - line_start(text, t.offset as int)
}

/// Whether the tokens are spans of the text at or after `pos` that follow
/// one another without overlap.
pub open spec fn spans_from(text: Seq<u8>, ts: Seq<TokenView>, pos: int) -> bool {
    &&& forall|k: int| 0 <= k < ts.len() ==> is_span(text, #[trigger] ts[k]) && pos <= ts[k].offset
    &&& forall|k: int, m: int|
        0 <= k < m < ts.len() ==> (#[trigger] ts[k]).offset + ts[k].text.len() <= (
        #[trigger] ts[m]).offset
}

proof fn lemma_tokens_from_spans(text: Seq<u8>, pos: int)
    requires
        0 <= pos,
        text.len() <= usize::MAX,
    ensures
        spans_from(text, tokens_from(text, pos), pos),
    decreases text.len() - pos,
{
    if pos < text.len() {
        let (class, end) = lexeme(text, pos);
        if !(end <= pos || end > text.len()) {
            lemma_tokens_from_spans(text, end);
            let rest = tokens_from(text, end);
            match class {
                LexemeClass::Token(kind) => {
                    let tok = crate::lexer::token_at(text, kind, pos, end);
                    let ts = seq![tok] + rest;
                    lemma_line_bounds(text, pos);
                    assert(is_span(text, tok));
                    assert forall|k: int| 0 <= k < ts.len() implies is_span(text, #[trigger] ts[k])
                        && pos <= ts[k].offset by {
                        if k > 0 {
                            assert(ts[k] == rest[k - 1]);
                        }
                    }
                    assert forall|k: int, m: int| 0 <= k < m < ts.len() implies (
                    #[trigger] ts[k]).offset + ts[k].text.len() <= (#[trigger] ts[m]).offset by {
                        assert(ts[m] == rest[m - 1]);
                        if k > 0 {
                            assert(ts[k] == rest[k - 1]);
                        }
                    }
                },
                _ => {
                    assert forall|k: int| 0 <= k < rest.len() implies pos <= (
                    #[trigger] rest[k]).offset by {}
                },
            }
        }
    }
}

/// The tokens of a text are spans of the text: each holds the bytes at its
/// offset and knows its line and column, none is empty, and each ends
/// before the next starts.
pub proof fn lemma_tokens_are_spans(text: Seq<u8>)
    requires
        text.len() <= usize::MAX,
    ensures
        spans_from(text, tokens(text), 0),
{
    lemma_tokens_from_spans(text, 0);
}

} // verus!
