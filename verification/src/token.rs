//! Tokens and lexical diagnostics.

use vstd::prelude::*;

verus! {

/// The category of a token.
#[derive(Clone, Copy, Debug, PartialEq, Eq, Structural)]
pub enum TokenKind {
    Identifier,
    Keyword,
    Literal,
    Punctuation,
    Comment,
}

/// A token: its category, the bytes it spans and where it starts.
/// Lines and columns count from zero; columns count bytes.
#[derive(Clone, Debug, PartialEq, Eq)]
pub struct Token {
    pub kind: TokenKind,
    pub text: Vec<u8>,
    pub offset: usize,
    pub line: usize,
    pub column: usize,
}

/// The mathematical model of a [`Token`].
pub struct TokenView {
    pub kind: TokenKind,
    pub text: Seq<u8>,
    pub offset: usize,
    pub line: usize,
    pub column: usize,
}

impl View for Token {
    type V = TokenView;

    open spec fn view(&self) -> TokenView {
        TokenView {
            kind: self.kind,
            text: self.text@,
            offset: self.offset,
            line: self.line,
            column: self.column,
        }
    }
}

/// Why the lexer gave up on a lexeme.
#[derive(Clone, Copy, Debug, PartialEq, Eq, Structural)]
pub enum LexErrorKind {
    UnterminatedString,
    UnterminatedComment,
}

/// A malformed lexeme: where it starts and why it was rejected.
#[derive(Clone, Copy, Debug, PartialEq, Eq, Structural)]
pub struct LexError {
    pub reason: LexErrorKind,
    pub offset: usize,
    pub line: usize,
    pub column: usize,
}

} // verus!
