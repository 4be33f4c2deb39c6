//! The lexer: source bytes to tokens.

use vstd::prelude::*;
use vstd::string::StringSliceAdditionalSpecFns;
use vstd::slice::slice_subrange;
use crate::text::{views, word, is_word, copy_range};
use crate::token::{Token, TokenView, TokenKind, LexError, LexErrorKind};

verus! {

pub const TAB: u8 = 9;
pub const NEWLINE: u8 = 10;
pub const RETURN: u8 = 13;
pub const SPACE: u8 = 32;
pub const QUOTE: u8 = 34;
pub const HASH: u8 = 35;
pub const APOSTROPHE: u8 = 39;
pub const STAR: u8 = 42;
pub const DOT: u8 = 46;
pub const SLASH: u8 = 47;
pub const BACKSLASH: u8 = 92;
pub const LOWER_B: u8 = 98;
pub const LOWER_R: u8 = 114;

pub open spec fn is_space(b: u8) -> bool {
    b == SPACE || b == TAB || b == NEWLINE || b == RETURN
}

pub open spec fn is_digit(b: u8) -> bool {
    48 <= b <= 57
}

/// Bytes that may begin a name: ASCII letters, the underscore and every byte
/// of a multi-byte UTF-8 character.
pub open spec fn is_name_start(b: u8) -> bool {
    (65 <= b <= 90) || (97 <= b <= 122) || b == 95 || b >= 128
}

pub open spec fn is_name_part(b: u8) -> bool {
    is_name_start(b) || is_digit(b)
}

/// The classes of bytes that the lexer consumes in runs.
#[derive(Clone, Copy, Debug, PartialEq, Eq, Structural)]
pub enum ByteClass {
    /// White space.
    Space,
    /// Letters, digits and the underscore.
    NamePart,
    /// The `#` sign.
    Hash,
    /// Everything but a line feed.
    SameLine,
    /// Everything but a line feed and an apostrophe.
    CharBody,
}

pub open spec fn in_class(c: ByteClass, b: u8) -> bool {
    match c {
        ByteClass::Space => is_space(b),
        ByteClass::NamePart => is_name_part(b),
        ByteClass::Hash => b == HASH,
        ByteClass::SameLine => b != NEWLINE,
        ByteClass::CharBody => b != NEWLINE && b != APOSTROPHE,
    }
}

/// The end of the longest run of bytes of class `c` that starts at `i`.
pub open spec fn run_end(text: Seq<u8>, i: int, c: ByteClass) -> int
    decreases text.len() - i,
{
    if 0 <= i < text.len() && in_class(c, text[i]) {
        run_end(text, i + 1, c)
    } else {
        i
    }
}

/// The index after the quote that closes a string whose body starts at `i`;
/// a backslash escapes the byte after it.
pub open spec fn string_end(text: Seq<u8>, i: int) -> Option<int>
    decreases text.len() - i,
{
    if i < 0 || i >= text.len() {
        None
    } else if text[i] == QUOTE {
        Some(i + 1)
    } else if text[i] == BACKSLASH {
        if i + 1 < text.len() {
            string_end(text, i + 2)
        } else {
            None
        }
    } else {
        string_end(text, i + 1)
    }
}

/// The index after the closing delimiter of a raw string whose body starts
/// at `i`: the first quote followed by at least `hashes` hash signs.
pub open spec fn raw_string_end(text: Seq<u8>, i: int, hashes: int) -> Option<int>
    decreases text.len() - i,
{
    if i < 0 || i >= text.len() {
        None
    } else if text[i] == QUOTE && run_end(text, i + 1, ByteClass::Hash) - (i + 1) >= hashes {
        Some(i + 1 + hashes)
    } else {
        raw_string_end(text, i + 1, hashes)
    }
}

/// The index after the `*/` that closes a block comment whose body starts at
/// `i`, `depth` comments being open there. Block comments nest.
pub open spec fn block_comment_end(text: Seq<u8>, i: int, depth: int) -> Option<int>
    decreases text.len() - i,
{
    if i < 0 || i >= text.len() || depth < 1 {
        None
    } else if text[i] == STAR && i + 1 < text.len() && text[i + 1] == SLASH {
        if depth == 1 {
            Some(i + 2)
        } else {
            block_comment_end(text, i + 2, depth - 1)
        }
    } else if text[i] == SLASH && i + 1 < text.len() && text[i + 1] == STAR {
        block_comment_end(text, i + 2, depth + 1)
    } else {
        block_comment_end(text, i + 1, depth)
    }
}

/// The number of bytes of the UTF-8 character that `b` begins.
pub open spec fn char_width(b: u8) -> int {
    if b >= 240 {
        4
    } else if b >= 224 {
        3
    } else if b >= 192 {
        2
    } else {
        1
    }
}

/// The index after a character literal whose opening apostrophe is at `i`,
/// or `None` where the apostrophe opens no literal (it then marks a
/// lifetime).
pub open spec fn char_end(text: Seq<u8>, i: int) -> Option<int> {
    if i < 0 || i + 1 >= text.len() {
        None
    } else if text[i + 1] == BACKSLASH {
        let j = run_end(text, i + 3, ByteClass::CharBody);
        if j < text.len() && text[j] == APOSTROPHE {
            Some(j + 1)
        } else {
            None
        }
    } else if text[i + 1] == APOSTROPHE || text[i + 1] == NEWLINE {
        None
    } else {
        let j = i + 1 + char_width(text[i + 1]);
        if j < text.len() && text[j] == APOSTROPHE {
            Some(j + 1)
        } else {
            None
        }
    }
}

/// The end of a numeric literal whose first digit is just before `i`:
/// digits, letters and underscores (bases, exponents, type suffixes), with
/// one fractional part where a digit follows the point.
pub open spec fn number_end(text: Seq<u8>, i: int) -> int {
    let j = run_end(text, i, ByteClass::NamePart);
    if j + 1 < text.len() && text[j] == DOT && is_digit(text[j + 1]) {
        run_end(text, j + 2, ByteClass::NamePart)
    } else {
        j
    }
}

/// Whether a name is reserved.
pub open spec fn is_keyword(w: Seq<u8>) -> bool {
    ||| w == word("as") || w == word("async") || w == word("await") || w == word("break")
    ||| w == word("const") || w == word("continue") || w == word("crate") || w == word("dyn")
    ||| w == word("else") || w == word("enum") || w == word("extern") || w == word("false")
    ||| w == word("fn") || w == word("for") || w == word("if") || w == word("impl")
    ||| w == word("in") || w == word("let") || w == word("loop") || w == word("match")
    ||| w == word("mod") || w == word("move") || w == word("mut") || w == word("pub")
    ||| w == word("ref") || w == word("return") || w == word("self") || w == word("Self")
    ||| w == word("static") || w == word("struct") || w == word("super") || w == word("trait")
    ||| w == word("true") || w == word("type") || w == word("unsafe") || w == word("use")
    ||| w == word("where") || w == word("while")
}

/// What the lexer finds at a position.
#[derive(Clone, Copy, Debug, PartialEq, Eq, Structural)]
pub enum LexemeClass {
    /// White space, which yields nothing.
    Blank,
    /// A token of the given kind.
    Token(TokenKind),
    /// A malformed lexeme; the lexer resumes at the end of its line.
    Broken(LexErrorKind),
}

/// A quoted string whose body starts at `i`.
pub open spec fn string_lexeme(text: Seq<u8>, i: int) -> (LexemeClass, int) {
    match string_end(text, i) {
        Some(e) => (LexemeClass::Token(TokenKind::Literal), e),
        None => (
            LexemeClass::Broken(LexErrorKind::UnterminatedString),
            run_end(text, i, ByteClass::SameLine),
        ),
    }
}

/// A literal that begins with the letter at `pos`: a byte string `b".."`, a
/// byte character `b'.'`, a raw string `r".."`, `r#".."#` or a raw byte
/// string `br".."`. `None` where the letter begins a name.
pub open spec fn prefixed_literal(text: Seq<u8>, pos: int) -> Option<(LexemeClass, int)> {
    let b = text[pos];
    let double = b == LOWER_B && pos + 1 < text.len() && text[pos + 1] == LOWER_R;
    let p = if double {
        pos + 2
    } else {
        pos + 1
    };
    if b == LOWER_R || double {
        let q = run_end(text, p, ByteClass::Hash);
        if q < text.len() && text[q] == QUOTE {
            match raw_string_end(text, q + 1, q - p) {
                Some(e) => Some((LexemeClass::Token(TokenKind::Literal), e)),
                None => Some(
                    (
                        LexemeClass::Broken(LexErrorKind::UnterminatedString),
                        run_end(text, q + 1, ByteClass::SameLine),
                    ),
                ),
            }
        } else {
            None
        }
    } else if b == LOWER_B && p < text.len() && text[p] == QUOTE {
        Some(string_lexeme(text, p + 1))
    } else if b == LOWER_B && p < text.len() && text[p] == APOSTROPHE {
        match char_end(text, p) {
            Some(e) => Some((LexemeClass::Token(TokenKind::Literal), e)),
            None => None,
        }
    } else {
        None
    }
}

/// A name or a keyword that starts at `pos`.
pub open spec fn name_lexeme(text: Seq<u8>, pos: int) -> (LexemeClass, int) {
    let e = run_end(text, pos + 1, ByteClass::NamePart);
    if is_keyword(text.subrange(pos, e)) {
        (LexemeClass::Token(TokenKind::Keyword), e)
    } else {
        (LexemeClass::Token(TokenKind::Identifier), e)
    }
}

/// The lexeme that starts at `pos`, with the index at which the next one
/// starts. Defined for `0 <= pos < text.len()`.
#[verifier::opaque]
pub open spec fn lexeme(text: Seq<u8>, pos: int) -> (LexemeClass, int) {
    let b = text[pos];
    let next = if pos + 1 < text.len() {
        Some(text[pos + 1])
    } else {
        None
    };
    if is_space(b) {
        (LexemeClass::Blank, run_end(text, pos + 1, ByteClass::Space))
    } else if b == SLASH && next == Some(SLASH) {
        (LexemeClass::Token(TokenKind::Comment), run_end(text, pos + 2, ByteClass::SameLine))
    } else if b == SLASH && next == Some(STAR) {
        match block_comment_end(text, pos + 2, 1) {
            Some(e) => (LexemeClass::Token(TokenKind::Comment), e),
            None => (
                LexemeClass::Broken(LexErrorKind::UnterminatedComment),
                run_end(text, pos + 2, ByteClass::SameLine),
            ),
        }
    } else if b == QUOTE {
        string_lexeme(text, pos + 1)
    } else if b == APOSTROPHE {
        match char_end(text, pos) {
            Some(e) => (LexemeClass::Token(TokenKind::Literal), e),
            None => (LexemeClass::Token(TokenKind::Punctuation), pos + 1),
        }
    } else if is_digit(b) {
        (LexemeClass::Token(TokenKind::Literal), number_end(text, pos + 1))
    } else if is_name_start(b) {
        match prefixed_literal(text, pos) {
            Some(l) => l,
            None => name_lexeme(text, pos),
        }
    } else {
        (LexemeClass::Token(TokenKind::Punctuation), pos + 1)
    }
}

/// The number of line feeds before `pos`.
pub open spec fn line_of(text: Seq<u8>, pos: int) -> int
    decreases pos,
{
    if pos <= 0 || pos > text.len() {
        0
    } else if text[pos - 1] == NEWLINE {
        line_of(text, pos - 1) + 1
    } else {
        line_of(text, pos - 1)
    }
}

/// The index at which the line that holds `pos` starts.
pub open spec fn line_start(text: Seq<u8>, pos: int) -> int
    decreases pos,
{
    if pos <= 0 || pos > text.len() {
        0
    } else if text[pos - 1] == NEWLINE {
        pos
    } else {
        line_start(text, pos - 1)
    }
}

/// The token of kind `kind` that spans `text[pos..end]`.
pub open spec fn token_at(text: Seq<u8>, kind: TokenKind, pos: int, end: int) -> TokenView {
    TokenView {
        kind,
        text: text.subrange(pos, end),
        offset: pos as usize,
        line: line_of(text, pos) as usize,
        column: (pos - line_start(text, pos)) as usize,
    }
}

/// The error raised for the malformed lexeme that starts at `pos`.
pub open spec fn error_at(text: Seq<u8>, reason: LexErrorKind, pos: int) -> LexError {
    LexError {
        reason,
        offset: pos as usize,
        line: line_of(text, pos) as usize,
        column: (pos - line_start(text, pos)) as usize,
    }
}

/// The tokens of `text[pos..]`, in order.
pub open spec fn tokens_from(text: Seq<u8>, pos: int) -> Seq<TokenView>
    decreases text.len() - pos,
{
    if pos < 0 || pos >= text.len() {
        Seq::empty()
    } else {
        let (class, end) = lexeme(text, pos);
        if end <= pos || end > text.len() {
            Seq::empty()
        } else {
            match class {
                LexemeClass::Token(kind) => seq![token_at(text, kind, pos, end)] + tokens_from(
                    text,
                    end,
                ),
                _ => tokens_from(text, end),
            }
        }
    }
}

/// The lexical errors of `text[pos..]`, in order.
pub open spec fn errors_from(text: Seq<u8>, pos: int) -> Seq<LexError>
    decreases text.len() - pos,
{
    if pos < 0 || pos >= text.len() {
        Seq::empty()
    } else {
        let (class, end) = lexeme(text, pos);
        if end <= pos || end > text.len() {
            Seq::empty()
        } else {
            match class {
                LexemeClass::Broken(reason) => seq![error_at(text, reason, pos)] + errors_from(
                    text,
                    end,
                ),
                _ => errors_from(text, end),
            }
        }
    }
}

/// The tokens of a text.
pub open spec fn tokens(text: Seq<u8>) -> Seq<TokenView> {
    tokens_from(text, 0)
}

/// The lexical errors of a text.
pub open spec fn lex_errors(text: Seq<u8>) -> Seq<LexError> {
    errors_from(text, 0)
}


/// A run never ends before it starts, nor beyond the end of the text.
pub proof fn lemma_run_end_bounds(text: Seq<u8>, i: int, c: ByteClass)
    ensures
        i <= run_end(text, i, c),
        i <= text.len() ==> run_end(text, i, c) <= text.len(),
    decreases text.len() - i,
{
    if 0 <= i < text.len() && in_class(c, text[i]) {
        lemma_run_end_bounds(text, i + 1, c);
    }
}

fn digit(b: u8) -> (r: bool)
    ensures
        r == is_digit(b),
{
    48 <= b && b <= 57
}

fn name_start(b: u8) -> (r: bool)
    ensures
        r == is_name_start(b),
{
    (65 <= b && b <= 90) || (97 <= b && b <= 122) || b == 95 || b >= 128
}

fn class_has(c: ByteClass, b: u8) -> (r: bool)
    ensures
        r == in_class(c, b),
{
    match c {
        ByteClass::Space => b == SPACE || b == TAB || b == NEWLINE || b == RETURN,
        ByteClass::NamePart => name_start(b) || digit(b),
        ByteClass::Hash => b == HASH,
        ByteClass::SameLine => b != NEWLINE,
        ByteClass::CharBody => b != NEWLINE && b != APOSTROPHE,
    }
}

fn scan_run(text: &[u8], i: usize, c: ByteClass) -> (e: usize)
    requires
        i <= text.len(),
    ensures
        e as int == run_end(text@, i as int, c),
        i <= e <= text.len(),
{
    let mut j: usize = i;
    while j < text.len() && class_has(c, text[j])
        invariant
            i <= j <= text.len(),
            run_end(text@, j as int, c) == run_end(text@, i as int, c),
        decreases text.len() - j,
    {
        j += 1;
    }
    j
}

fn scan_string_end(text: &[u8], i: usize) -> (r: Option<usize>)
    requires
        i <= text.len(),
    ensures
        match r {
            Some(e) => string_end(text@, i as int) == Some(e as int) && i < e <= text.len(),
            None => string_end(text@, i as int) is None,
        },
{
    let mut j: usize = i;
    while j < text.len()
        invariant
            i <= j <= text.len(),
            string_end(text@, j as int) == string_end(text@, i as int),
        decreases text.len() - j,
    {
        if text[j] == QUOTE {
            return Some(j + 1);
        }
        if text[j] == BACKSLASH {
            if j + 1 < text.len() {
                j += 2;
            } else {
                return None;
            }
        } else {
            j += 1;
        }
    }
    None
}

fn scan_raw_string_end(text: &[u8], i: usize, hashes: usize) -> (r: Option<usize>)
    requires
        i <= text.len(),
    ensures
        match r {
            Some(e) => raw_string_end(text@, i as int, hashes as int) == Some(e as int) && i < e
                <= text.len(),
            None => raw_string_end(text@, i as int, hashes as int) is None,
        },
{
    let mut j: usize = i;
    while j < text.len()
        invariant
            i <= j <= text.len(),
            raw_string_end(text@, j as int, hashes as int) == raw_string_end(
                text@,
                i as int,
                hashes as int,
            ),
        decreases text.len() - j,
    {
        if text[j] == QUOTE {
            let h: usize = scan_run(text, j + 1, ByteClass::Hash);
            if h - (j + 1) >= hashes {
                return Some(j + 1 + hashes);
            }
        }
        j += 1;
    }
    None
}

fn scan_block_comment_end(text: &[u8], i: usize) -> (r: Option<usize>)
    requires
        1 <= i <= text.len(),
    ensures
        match r {
            Some(e) => block_comment_end(text@, i as int, 1) == Some(e as int) && i < e
                <= text.len(),
            None => block_comment_end(text@, i as int, 1) is None,
        },
{
    let mut j: usize = i;
    let mut depth: usize = 1;
    while j < text.len()
        invariant
            i <= j <= text.len(),
            1 <= depth <= j,
            block_comment_end(text@, j as int, depth as int) == block_comment_end(
                text@,
                i as int,
                1,
            ),
        decreases text.len() - j,
    {
        if text[j] == STAR && j + 1 < text.len() && text[j + 1] == SLASH {
            if depth == 1 {
                return Some(j + 2);
            }
            depth -= 1;
            j += 2;
        } else if text[j] == SLASH && j + 1 < text.len() && text[j + 1] == STAR {
            depth += 1;
            j += 2;
        } else {
            j += 1;
        }
    }
    None
}

fn width(b: u8) -> (w: usize)
    ensures
        w as int == char_width(b),
        1 <= w <= 4,
{
    if b >= 240 {
        4
    } else if b >= 224 {
        3
    } else if b >= 192 {
        2
    } else {
        1
    }
}

fn scan_char_end(text: &[u8], i: usize) -> (r: Option<usize>)
    requires
        i < text.len(),
    ensures
        match r {
            Some(e) => char_end(text@, i as int) == Some(e as int) && i < e <= text.len(),
            None => char_end(text@, i as int) is None,
        },
{
    let len: usize = text.len();
    if len - i < 2 {
        return None;
    }
    let c: u8 = text[i + 1];
    if c == BACKSLASH {
        if len - i <= 3 {
            proof {
                lemma_run_end_bounds(text@, i + 3, ByteClass::CharBody);
            }
            return None;
        }
        let j: usize = scan_run(text, i + 3, ByteClass::CharBody);
        if j < len && text[j] == APOSTROPHE {
            Some(j + 1)
        } else {
            None
        }
    } else if c == APOSTROPHE || c == NEWLINE {
        None
    } else {
        let w: usize = width(c);
        if len - i - 1 <= w {
            return None;
        }
        let j: usize = i + 1 + w;
        if text[j] == APOSTROPHE {
            Some(j + 1)
        } else {
            None
        }
    }
}

fn scan_number_end(text: &[u8], i: usize) -> (e: usize)
    requires
        i <= text.len(),
    ensures
        e as int == number_end(text@, i as int),
        i <= e <= text.len(),
{
    let j: usize = scan_run(text, i, ByteClass::NamePart);
    if j < text.len() && text.len() - j > 1 && text[j] == DOT && digit(text[j + 1]) {
        scan_run(text, j + 2, ByteClass::NamePart)
    } else {
        j
    }
}

fn keyword(w: &[u8]) -> (r: bool)
    ensures
        r == is_keyword(w@),
{
    is_word(w, "as") || is_word(w, "async") || is_word(w, "await") || is_word(w, "break")
        || is_word(w, "const") || is_word(w, "continue") || is_word(w, "crate") || is_word(
        w,
        "dyn",
    ) || is_word(w, "else") || is_word(w, "enum") || is_word(w, "extern") || is_word(w, "false")
        || is_word(w, "fn") || is_word(w, "for") || is_word(w, "if") || is_word(w, "impl")
        || is_word(w, "in") || is_word(w, "let") || is_word(w, "loop") || is_word(w, "match")
        || is_word(w, "mod") || is_word(w, "move") || is_word(w, "mut") || is_word(w, "pub")
        || is_word(w, "ref") || is_word(w, "return") || is_word(w, "self") || is_word(w, "Self")
        || is_word(w, "static") || is_word(w, "struct") || is_word(w, "super") || is_word(
        w,
        "trait",
    ) || is_word(w, "true") || is_word(w, "type") || is_word(w, "unsafe") || is_word(w, "use")
        || is_word(w, "where") || is_word(w, "while")
}

fn scan_string(text: &[u8], i: usize) -> (r: (LexemeClass, usize))
    requires
        i <= text.len(),
    ensures
        (r.0, r.1 as int) == string_lexeme(text@, i as int),
        i <= r.1 <= text.len(),
{
    match scan_string_end(text, i) {
        Some(e) => (LexemeClass::Token(TokenKind::Literal), e),
        None => (
            LexemeClass::Broken(LexErrorKind::UnterminatedString),
            scan_run(text, i, ByteClass::SameLine),
        ),
    }
}

fn scan_prefixed(text: &[u8], pos: usize) -> (r: Option<(LexemeClass, usize)>)
    requires
        pos < text.len(),
    ensures
        match r {
            Some(l) => prefixed_literal(text@, pos as int) == Some((l.0, l.1 as int)) && pos < l.1
                <= text.len(),
            None => prefixed_literal(text@, pos as int) is None,
        },
{
    let len: usize = text.len();
    let b: u8 = text[pos];
    let double: bool = b == LOWER_B && pos + 1 < len && text[pos + 1] == LOWER_R;
    let p: usize = if double {
        pos + 2
    } else {
        pos + 1
    };
    if b == LOWER_R || double {
        let q: usize = scan_run(text, p, ByteClass::Hash);
        if q < len && text[q] == QUOTE {
            match scan_raw_string_end(text, q + 1, q - p) {
                Some(e) => Some((LexemeClass::Token(TokenKind::Literal), e)),
                None => Some(
                    (
                        LexemeClass::Broken(LexErrorKind::UnterminatedString),
                        scan_run(text, q + 1, ByteClass::SameLine),
                    ),
                ),
            }
        } else {
            None
        }
    } else if b == LOWER_B && p < len && text[p] == QUOTE {
        Some(scan_string(text, p + 1))
    } else if b == LOWER_B && p < len && text[p] == APOSTROPHE {
        match scan_char_end(text, p) {
            Some(e) => Some((LexemeClass::Token(TokenKind::Literal), e)),
            None => None,
        }
    } else {
        None
    }
}

fn scan_name(text: &[u8], pos: usize) -> (r: (LexemeClass, usize))
    requires
        pos < text.len(),
    ensures
        (r.0, r.1 as int) == name_lexeme(text@, pos as int),
        pos < r.1 <= text.len(),
{
    let e: usize = scan_run(text, pos + 1, ByteClass::NamePart);
    if keyword(slice_subrange(text, pos, e)) {
        (LexemeClass::Token(TokenKind::Keyword), e)
    } else {
        (LexemeClass::Token(TokenKind::Identifier), e)
    }
}

/// Scans the lexeme that starts at `pos`: its class and the index at which
/// the next lexeme starts. The lexer is restartable: the result depends on
/// the text and the position alone.
pub fn scan_lexeme(text: &[u8], pos: usize) -> (r: (LexemeClass, usize))
    requires
        pos < text.len(),
    ensures
        (r.0, r.1 as int) == lexeme(text@, pos as int),
        pos < r.1 <= text.len(),
{
    reveal(lexeme);
    let len: usize = text.len();
    let b: u8 = text[pos];
    if class_has(ByteClass::Space, b) {
        (LexemeClass::Blank, scan_run(text, pos + 1, ByteClass::Space))
    } else if b == SLASH && pos + 1 < len && text[pos + 1] == SLASH {
        (LexemeClass::Token(TokenKind::Comment), scan_run(text, pos + 2, ByteClass::SameLine))
    } else if b == SLASH && pos + 1 < len && text[pos + 1] == STAR {
        match scan_block_comment_end(text, pos + 2) {
            Some(e) => (LexemeClass::Token(TokenKind::Comment), e),
            None => (
                LexemeClass::Broken(LexErrorKind::UnterminatedComment),
                scan_run(text, pos + 2, ByteClass::SameLine),
            ),
        }
    } else if b == QUOTE {
        scan_string(text, pos + 1)
    } else if b == APOSTROPHE {
        match scan_char_end(text, pos) {
            Some(e) => (LexemeClass::Token(TokenKind::Literal), e),
            None => (LexemeClass::Token(TokenKind::Punctuation), pos + 1),
        }
    } else if digit(b) {
        (LexemeClass::Token(TokenKind::Literal), scan_number_end(text, pos + 1))
    } else if name_start(b) {
        match scan_prefixed(text, pos) {
            Some(l) => l,
            None => scan_name(text, pos),
        }
    } else {
        (LexemeClass::Token(TokenKind::Punctuation), pos + 1)
    }
}

/// Carries the line number and the start of the line from `from` to `to`.
pub(crate) fn advance(text: &[u8], from: usize, to: usize, line: usize, start: usize) -> (r: (usize, usize))
    requires
        from <= to <= text.len(),
        line as int == line_of(text@, from as int),
        start as int == line_start(text@, from as int),
        line <= from,
        start <= from,
    ensures
        r.0 as int == line_of(text@, to as int),
        r.1 as int == line_start(text@, to as int),
        r.0 <= to,
        r.1 <= to,
{
    let mut k: usize = from;
    let mut l: usize = line;
    let mut s: usize = start;
    while k < to
        invariant
            from <= k <= to <= text.len(),
            l as int == line_of(text@, k as int),
            s as int == line_start(text@, k as int),
            l <= k,
            s <= k,
        decreases to - k,
    {
        if text[k] == NEWLINE {
            l += 1;
            s = k + 1;
        }
        k += 1;
    }
    (l, s)
}

/// Splits a text into tokens. Malformed lexemes are reported, each with the
/// position at which it starts, and lexing resumes at the end of the line.
pub fn tokenize_bytes(text: &[u8]) -> (r: (Vec<Token>, Vec<LexError>))
    ensures
        views(r.0@) == tokens(text@),
        r.1@ == lex_errors(text@),
{
    let mut toks: Vec<Token> = Vec::new();
    let mut errs: Vec<LexError> = Vec::new();
    let mut pos: usize = 0;
    let mut line: usize = 0;
    let mut start: usize = 0;
    assert(views(toks@) + tokens_from(text@, 0) =~= tokens(text@));
    assert(errs@ + errors_from(text@, 0) =~= lex_errors(text@));
    while pos < text.len()
        invariant
            pos <= text.len(),
            line as int == line_of(text@, pos as int),
            start as int == line_start(text@, pos as int),
            line <= pos,
            start <= pos,
            tokens(text@) == views(toks@) + tokens_from(text@, pos as int),
            lex_errors(text@) == errs@ + errors_from(text@, pos as int),
        decreases text.len() - pos,
    {
        let (class, end) = scan_lexeme(text, pos);
        let ghost before = views(toks@);
        let ghost errs_before = errs@;
        match class {
            LexemeClass::Token(kind) => {
                let tok = Token {
                    kind,
                    text: copy_range(text, pos, end),
                    offset: pos,
                    line,
                    column: pos - start,
                };
                assert(tok@ == token_at(text@, kind, pos as int, end as int));
                toks.push(tok);
                assert(views(toks@) =~= before.push(tok@));
                assert(before + (seq![tok@] + tokens_from(text@, end as int)) =~= before.push(
                    tok@,
                ) + tokens_from(text@, end as int));
            },
            LexemeClass::Broken(reason) => {
                let err = LexError { reason, offset: pos, line, column: pos - start };
                errs.push(err);
                assert(errs_before + (seq![err] + errors_from(text@, end as int))
                    =~= errs_before.push(err) + errors_from(text@, end as int));
            },
            LexemeClass::Blank => {},
        }
        let (l, s) = advance(text, pos, end, line, start);
        line = l;
        start = s;
        pos = end;
    }
    assert(views(toks@) + tokens_from(text@, pos as int) =~= views(toks@));
    assert(errs@ + errors_from(text@, pos as int) =~= errs@);
    (toks, errs)
}

/// Splits a text into tokens, as [`tokenize_bytes`] does with its bytes.
pub fn tokenize(text: &str) -> (r: (Vec<Token>, Vec<LexError>))
    ensures
        views(r.0@) == tokens(text.spec_bytes()),
        r.1@ == lex_errors(text.spec_bytes()),
{
    tokenize_bytes(text.as_bytes())
}

} // verus!
