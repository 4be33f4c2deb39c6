//! The whole pipeline on one text, with the diagnostics of every stage.

use vstd::prelude::*;
use vstd::string::StringSliceAdditionalSpecFns;
use crate::text::views;
use crate::token::{LexError, LexErrorKind};
use crate::lexer::{lex_errors, tokenize, tokens};
use crate::syntax::{Cst, DeclView, ParseError, ParseErrorKind};
use crate::grammar::parsed;
use crate::parser::parse;
use crate::symbols::{
    ImplementationEdge, ImplementationView, ResolutionErrorKind, ResolutionErrorView,
    SymbolTable,
};
use crate::resolution::resolved;
use crate::resolver::resolve;
use crate::graph::{build, built, SymbolGraph};
use crate::laws::{lemma_canonical_form_is_idempotent, lemma_resolved_table_builds};
use crate::canon::canonical;

verus! {

/// How grave a diagnostic is.
#[derive(Clone, Copy, Debug, PartialEq, Eq, Structural)]
pub enum Severity {
    Error,
    Warning,
}

/// What a diagnostic reports.
#[derive(Clone, Copy, Debug, PartialEq, Eq, Structural)]
pub enum DiagnosticCode {
    /// A malformed lexeme.
    Lex(LexErrorKind),
    /// A malformed declaration.
    Parse(ParseErrorKind),
    /// A name that is declared twice or not at all.
    Resolution(ResolutionErrorKind),
    /// An implementation that lacks a method that its trait requires.
    IncompleteImplementation,
}

/// A diagnostic: its severity, what it reports and where.
#[derive(Clone, Copy, Debug, PartialEq, Eq, Structural)]
pub struct Diagnostic {
    pub severity: Severity,
    pub code: DiagnosticCode,
    pub offset: usize,
    pub line: usize,
    pub column: usize,
}

/// The message of each code.
pub open spec fn message_text(code: DiagnosticCode) -> Seq<char> {
    match code {
        DiagnosticCode::Lex(LexErrorKind::UnterminatedString) => "unterminated string literal"@,
        DiagnosticCode::Lex(LexErrorKind::UnterminatedComment) => "unterminated block comment"@,
        DiagnosticCode::Parse(ParseErrorKind::ExpectedDeclaration) => "expected a declaration"@,
        DiagnosticCode::Parse(ParseErrorKind::ExpectedName) => "expected a name"@,
        DiagnosticCode::Parse(ParseErrorKind::ExpectedBody) => "expected a body"@,
        DiagnosticCode::Parse(ParseErrorKind::ExpectedField) => "expected a field"@,
        DiagnosticCode::Parse(ParseErrorKind::ExpectedVariant) => "expected a variant"@,
        DiagnosticCode::Parse(ParseErrorKind::ExpectedMember) => "expected a method"@,
        DiagnosticCode::Parse(ParseErrorKind::ExpectedDiscriminant) => "expected a literal discriminant"@,
        DiagnosticCode::Parse(ParseErrorKind::UnclosedDelimiter) => "unclosed delimiter"@,
        DiagnosticCode::Parse(ParseErrorKind::UnexpectedToken) => "unexpected token"@,
        DiagnosticCode::Resolution(ResolutionErrorKind::DuplicateSymbol) => "duplicate symbol"@,
        DiagnosticCode::Resolution(ResolutionErrorKind::UnresolvedReference) => "unresolved reference"@,
        DiagnosticCode::IncompleteImplementation => "implementation lacks a required method"@,
    }
}

impl Diagnostic {
    /// The diagnostic in words.
    pub fn message(&self) -> (m: &'static str)
        ensures
            m@ == message_text(self.code),
    {
        match self.code {
            DiagnosticCode::Lex(LexErrorKind::UnterminatedString) => "unterminated string literal",
            DiagnosticCode::Lex(LexErrorKind::UnterminatedComment) => "unterminated block comment",
            DiagnosticCode::Parse(ParseErrorKind::ExpectedDeclaration) => "expected a declaration",
            DiagnosticCode::Parse(ParseErrorKind::ExpectedName) => "expected a name",
            DiagnosticCode::Parse(ParseErrorKind::ExpectedBody) => "expected a body",
            DiagnosticCode::Parse(ParseErrorKind::ExpectedField) => "expected a field",
            DiagnosticCode::Parse(ParseErrorKind::ExpectedVariant) => "expected a variant",
            DiagnosticCode::Parse(ParseErrorKind::ExpectedMember) => "expected a method",
            DiagnosticCode::Parse(ParseErrorKind::ExpectedDiscriminant) => "expected a literal discriminant",
            DiagnosticCode::Parse(ParseErrorKind::UnclosedDelimiter) => "unclosed delimiter",
            DiagnosticCode::Parse(ParseErrorKind::UnexpectedToken) => "unexpected token",
            DiagnosticCode::Resolution(ResolutionErrorKind::DuplicateSymbol) => "duplicate symbol",
            DiagnosticCode::Resolution(ResolutionErrorKind::UnresolvedReference) => "unresolved reference",
            DiagnosticCode::IncompleteImplementation => "implementation lacks a required method",
        }
    }
}

/// The diagnostic of a lexical error.
pub open spec fn of_lex_error(e: LexError) -> Diagnostic {
    Diagnostic {
        severity: Severity::Error,
        code: DiagnosticCode::Lex(e.reason),
        offset: e.offset,
        line: e.line,
        column: e.column,
    }
}

/// The diagnostic of a parse error.
pub open spec fn of_parse_error(e: ParseError) -> Diagnostic {
    Diagnostic {
        severity: Severity::Error,
        code: DiagnosticCode::Parse(e.reason),
        offset: e.offset,
        line: e.line,
        column: e.column,
    }
}

/// The diagnostic of a resolution error.
pub open spec fn of_resolution_error(e: ResolutionErrorView) -> Diagnostic {
    Diagnostic {
        severity: Severity::Error,
        code: DiagnosticCode::Resolution(e.kind),
        offset: e.offset,
        line: e.line,
        column: e.column,
    }
}

/// The warning for an implementation that is flagged invalid; it takes the
/// position of the implementation.
pub open spec fn of_implementation(decls: Seq<DeclView>, e: ImplementationView) -> Diagnostic {
    if e.declaration < decls.len() {
        Diagnostic {
            severity: Severity::Warning,
            code: DiagnosticCode::IncompleteImplementation,
            offset: decls[e.declaration as int].offset,
            line: decls[e.declaration as int].line,
            column: decls[e.declaration as int].column,
        }
    } else {
        Diagnostic {
            severity: Severity::Warning,
            code: DiagnosticCode::IncompleteImplementation,
            offset: 0,
            line: 0,
            column: 0,
        }
    }
}

/// The warnings for the invalid implementations from the `i`-th on, after
/// the diagnostics gathered so far.
pub open spec fn warnings(
    decls: Seq<DeclView>,
    edges: Seq<ImplementationView>,
    i: int,
    acc: Seq<Diagnostic>,
) -> Seq<Diagnostic>
    decreases edges.len() - i,
{
    if i < 0 || i >= edges.len() {
        acc
    } else if edges[i].valid {
        warnings(decls, edges, i + 1, acc)
    } else {
        warnings(decls, edges, i + 1, acc.push(of_implementation(decls, edges[i])))
    }
}

/// The diagnostics of a text, stage by stage: lexical errors, parse errors,
/// resolution errors, then a warning for every invalid implementation.
pub open spec fn diagnostics_of(text: Seq<u8>) -> Seq<Diagnostic> {
    let decls = parsed(tokens(text)).0;
    let lexical = Seq::new(lex_errors(text).len(), |i: int| of_lex_error(lex_errors(text)[i]));
    let syntactic = Seq::new(
        parsed(tokens(text)).1.len(),
        |i: int| of_parse_error(parsed(tokens(text)).1[i]),
    );
    let semantic = Seq::new(
        resolved(decls).1.len(),
        |i: int| of_resolution_error(resolved(decls).1[i]),
    );
    warnings(decls, resolved(decls).0.implementations, 0, lexical + syntactic + semantic)
}

/// What the pipeline makes of a text.
#[derive(Clone, Debug, PartialEq, Eq)]
pub struct Analysis {
    pub cst: Cst,
    pub table: SymbolTable,
    pub graph: SymbolGraph,
    pub diagnostics: Vec<Diagnostic>,
}

/// Whether `a` is the analysis of `text`.
pub open spec fn is_analysis_of(text: Seq<u8>, a: Analysis) -> bool {
    &&& a.cst@ == parsed(tokens(text)).0
    &&& a.cst.source() == tokens(text)
    &&& a.table@ == resolved(a.cst@).0
    &&& built(a.table@) is Ok
    &&& a.graph@ == built(a.table@)->Ok_0
    &&& a.graph@.well_formed()
    &&& a.diagnostics@ == diagnostics_of(text)
}

fn add_warnings(cst: &Cst, edges: &Vec<ImplementationEdge>, out: &mut Vec<Diagnostic>)
    ensures
        final(out)@ == warnings(cst@, views(edges@), 0, old(out)@),
{
    let mut i: usize = 0;
    while i < edges.len()
        invariant
            i <= edges.len(),
            warnings(cst@, views(edges@), i as int, out@) == warnings(
                cst@,
                views(edges@),
                0,
                old(out)@,
            ),
        decreases edges.len() - i,
    {
        let e = &edges[i];
        if !e.valid {
            let code = DiagnosticCode::IncompleteImplementation;
            if e.declaration < cst.declarations.len() {
                let d = &cst.declarations[e.declaration];
                out.push(
                    Diagnostic {
                        severity: Severity::Warning,
                        code,
                        offset: d.offset,
                        line: d.line,
                        column: d.column,
                    },
                );
            } else {
                out.push(
                    Diagnostic { severity: Severity::Warning, code, offset: 0, line: 0, column: 0 },
                );
            }
        }
        i += 1;
    }
}

/// Runs the four stages on a text. Every stage works on what the stage
/// before it could make of the text, so a tree, a table and a graph are
/// always returned, together with the diagnostics of all stages in order.
/// The table comes from resolution, so building its graph cannot fail.
pub fn analyze(text: &str) -> (a: Analysis)
    ensures
        is_analysis_of(text.spec_bytes(), a),
{
    let ghost bytes = text.spec_bytes();
    let (toks, lexical) = tokenize(text);
    let (cst, syntactic) = parse(&toks);
    let (table, semantic) = resolve(&cst);
    let mut out: Vec<Diagnostic> = Vec::new();
    let ghost first = Seq::new(lex_errors(bytes).len(), |i: int| of_lex_error(lex_errors(bytes)[i]));
    let ghost second = Seq::new(
        parsed(tokens(bytes)).1.len(),
        |i: int| of_parse_error(parsed(tokens(bytes)).1[i]),
    );
    let ghost third = Seq::new(
        resolved(cst@).1.len(),
        |i: int| of_resolution_error(resolved(cst@).1[i]),
    );
    let mut i: usize = 0;
    while i < lexical.len()
        invariant
            i <= lexical.len(),
            lexical@ == lex_errors(bytes),
            first.len() == lexical.len(),
            forall|k: int| 0 <= k < first.len() ==> first[k] == of_lex_error(lexical@[k]),
            out@ == first.subrange(0, i as int),
        decreases lexical.len() - i,
    {
        let e = &lexical[i];
        out.push(
            Diagnostic {
                severity: Severity::Error,
                code: DiagnosticCode::Lex(e.reason),
                offset: e.offset,
                line: e.line,
                column: e.column,
            },
        );
        assert(out@ =~= first.subrange(0, i + 1));
        i += 1;
    }
    assert(out@ =~= first);
    let mut i: usize = 0;
    while i < syntactic.len()
        invariant
            i <= syntactic.len(),
            second.len() == syntactic.len(),
            forall|k: int| 0 <= k < second.len() ==> second[k] == of_parse_error(syntactic@[k]),
            out@ == first + second.subrange(0, i as int),
        decreases syntactic.len() - i,
    {
        let e = &syntactic[i];
        out.push(
            Diagnostic {
                severity: Severity::Error,
                code: DiagnosticCode::Parse(e.reason),
                offset: e.offset,
                line: e.line,
                column: e.column,
            },
        );
        assert(out@ =~= first + second.subrange(0, i + 1));
        i += 1;
    }
    assert(out@ =~= first + second);
    let mut i: usize = 0;
    while i < semantic.len()
        invariant
            i <= semantic.len(),
            third.len() == semantic.len(),
            forall|k: int|
                0 <= k < third.len() ==> third[k] == of_resolution_error(views(semantic@)[k]),
            out@ == first + second + third.subrange(0, i as int),
        decreases semantic.len() - i,
    {
        let e = &semantic[i];
        out.push(
            Diagnostic {
                severity: Severity::Error,
                code: DiagnosticCode::Resolution(e.kind),
                offset: e.offset,
                line: e.line,
                column: e.column,
            },
        );
        assert(out@ =~= first + second + third.subrange(0, i + 1));
        i += 1;
    }
    assert(out@ =~= first + second + third);
    add_warnings(&cst, &table.implementations, &mut out);
    proof {
        lemma_resolved_table_builds(cst@);
    }
    match build(&table) {
        Ok(graph) => Analysis { cst, table, graph, diagnostics: out },
        Err(_) => {
            assert(false);
            Analysis {
                cst,
                table,
                graph: SymbolGraph { nodes: Vec::new(), edges: Vec::new() },
                diagnostics: out,
            }
        },
    }
}


/// Writes a text out in canonical form: lexes it, parses it and writes the
/// tree out again, one token to a line. The result is free of lexical
/// errors and is its own canonical form.
pub fn canonicalize(text: &str) -> (out: Vec<u8>)
    ensures
        out@ == canonical(text.spec_bytes()),
        canonical(out@) == out@,
        lex_errors(out@) == Seq::<LexError>::empty(),
{
    let (toks, _) = tokenize(text);
    let (cst, _) = parse(&toks);
    proof {
        lemma_canonical_form_is_idempotent(text.spec_bytes());
    }
    cst.canonical()
}

} // verus!
