//! The lexer as a lazy stream: one token or error at a time.

use vstd::prelude::*;
use crate::text::copy_range;
use crate::token::{LexError, Token, TokenView};
use crate::lexer::{
    advance, error_at, errors_from, lexeme, line_of, line_start, scan_lexeme, token_at,
    tokens_from, LexemeClass,
};

verus! {

/// What the stream yields: a token, or the error of a malformed lexeme.
#[derive(Clone, Debug, PartialEq, Eq)]
pub enum Lexed {
    Token(Token),
    Error(LexError),
}

/// The mathematical model of a [`Lexed`].
pub enum LexedView {
    Token(TokenView),
    Error(LexError),
}

impl View for Lexed {
    type V = LexedView;

    open spec fn view(&self) -> LexedView {
        match self {
            Lexed::Token(t) => LexedView::Token(t@),
            Lexed::Error(e) => LexedView::Error(*e),
        }
    }
}

/// The index at or after `pos` at which the next token or malformed lexeme
/// starts: white space is passed over. The length of the text if there is
/// none.
pub open spec fn next_start(text: Seq<u8>, pos: int) -> int
    decreases text.len() - pos,
{
    if pos < 0 || pos >= text.len() {
        text.len() as int
    } else {
        let (class, end) = lexeme(text, pos);
        if class == LexemeClass::Blank && pos < end <= text.len() {
            next_start(text, end)
        } else {
            pos
        }
    }
}

/// What the lexeme at `pos` yields; white space yields nothing.
pub open spec fn lexed_at(text: Seq<u8>, pos: int) -> Option<LexedView> {
    let (class, end) = lexeme(text, pos);
    match class {
        LexemeClass::Token(kind) => Some(LexedView::Token(token_at(text, kind, pos, end))),
        LexemeClass::Broken(reason) => Some(LexedView::Error(error_at(text, reason, pos))),
        LexemeClass::Blank => None,
    }
}

/// Passing over white space loses no token and no error.
pub proof fn lemma_next_start(text: Seq<u8>, pos: int)
    requires
        0 <= pos <= text.len(),
    ensures
        pos <= next_start(text, pos) <= text.len(),
        tokens_from(text, pos) == tokens_from(text, next_start(text, pos)),
        errors_from(text, pos) == errors_from(text, next_start(text, pos)),
    decreases text.len() - pos,
{
    if pos < text.len() {
        let (class, end) = lexeme(text, pos);
        if class == LexemeClass::Blank && pos < end <= text.len() {
            lemma_next_start(text, end);
        }
    }
}

/// A position in a text from which tokens are scanned on demand. Scanning
/// depends on the text and the position alone, so a stream may be started
/// again on the same text at any time and yields the same items.
pub struct Lexer<'a> {
    text: &'a [u8],
    pos: usize,
    line: usize,
    start: usize,
}

impl<'a> Lexer<'a> {
    #[verifier::type_invariant]
    spec fn wf(self) -> bool {
        &&& self.pos <= self.text@.len()
        &&& self.line <= self.pos
        &&& self.start <= self.pos
        &&& self.line as int == line_of(self.text@, self.pos as int)
        &&& self.start as int == line_start(self.text@, self.pos as int)
    }

    /// The text that the stream reads.
    pub closed spec fn source(self) -> Seq<u8> {
        self.text@
    }

    /// The index at which the stream stands.
    pub closed spec fn position(self) -> int {
        self.pos as int
    }

    /// A stream at the start of a text.
    pub fn new(text: &'a [u8]) -> (lx: Self)
        ensures
            lx.source() == text@,
            lx.position() == 0,
    {
        Lexer { text, pos: 0, line: 0, start: 0 }
    }

    /// The index at which the stream stands.
    pub fn offset(&self) -> (p: usize)
        ensures
            p == self.position(),
            p <= self.source().len(),
    {
        proof {
            use_type_invariant(self);
        }
        self.pos
    }

    /// The next token or error, and `None` at the end of the text. The
    /// stream then stands after what it yielded.
    pub fn next_item(&mut self) -> (r: Option<Lexed>)
        ensures
            final(self).source() == old(self).source(),
            old(self).position() <= next_start(old(self).source(), old(self).position()),
            match r {
                None => next_start(old(self).source(), old(self).position()) == old(
                    self,
                ).source().len() && final(self).position() == old(self).source().len(),
                Some(item) => {
                    let p = next_start(old(self).source(), old(self).position());
                    &&& p < old(self).source().len()
                    &&& lexed_at(old(self).source(), p) == Some(item@)
                    &&& final(self).position() == lexeme(old(self).source(), p).1
                    &&& p < final(self).position() <= old(self).source().len()
                },
            },
    {
        proof {
            use_type_invariant(&*self);
        }
        let text = self.text;
        let mut pos: usize = self.pos;
        let mut line: usize = self.line;
        let mut start: usize = self.start;
        while pos < text.len()
            invariant
                text@ == old(self).source(),
                *self == *old(self),
                old(self).position() <= pos <= text.len(),
                line <= pos,
                start <= pos,
                line as int == line_of(text@, pos as int),
                start as int == line_start(text@, pos as int),
                next_start(text@, pos as int) == next_start(text@, old(self).position()),
            decreases text.len() - pos,
        {
            let (class, end) = scan_lexeme(text, pos);
            let (l, s) = advance(text, pos, end, line, start);
            match class {
                LexemeClass::Blank => {
                    pos = end;
                    line = l;
                    start = s;
                },
                LexemeClass::Token(kind) => {
                    let tok = Token {
                        kind,
                        text: copy_range(text, pos, end),
                        offset: pos,
                        line,
                        column: pos - start,
                    };
                    *self = Lexer { text, pos: end, line: l, start: s };
                    return Some(Lexed::Token(tok));
                },
                LexemeClass::Broken(reason) => {
                    let err = LexError { reason, offset: pos, line, column: pos - start };
                    *self = Lexer { text, pos: end, line: l, start: s };
                    return Some(Lexed::Error(err));
                },
            }
        }
        *self = Lexer { text, pos, line, start };
        None
    }
}

} // verus!
