//! Diagnostics: findings about a text, each tied to the span of one token.

use super::lexer::{Token, TokenView};
use vstd::prelude::*;
use vstd::string::*;

verus! {

/// How serious a finding is.
#[derive(Clone, Copy, Debug, PartialEq, Eq, Structural)]
pub enum DiagnosticSeverity {
    Error,
    Warning,
    Information,
    Hint,
}

/// The number that stands for a severity on the wire: 1 for an error up to
/// 4 for a hint.
pub open spec fn severity_code(severity: DiagnosticSeverity) -> u32 {
    match severity {
        DiagnosticSeverity::Error => 1,
        DiagnosticSeverity::Warning => 2,
        DiagnosticSeverity::Information => 3,
        DiagnosticSeverity::Hint => 4,
    }
}

impl DiagnosticSeverity {
    /// The number that stands for this severity on the wire.
    pub fn code(&self) -> (code: u32)
        ensures
            code == severity_code(*self),
            1 <= code <= 4,
    {
        match self {
            DiagnosticSeverity::Error => 1,
            DiagnosticSeverity::Warning => 2,
            DiagnosticSeverity::Information => 3,
            DiagnosticSeverity::Hint => 4,
        }
    }
}

/// A place in a text.
#[derive(Clone, Copy, Debug, PartialEq, Eq, Structural)]
pub struct Position {
    pub line: u32,
    pub character: u32,
}

/// A span of a text, from its first place to its last.
#[derive(Clone, Copy, Debug, PartialEq, Eq, Structural)]
pub struct Range {
    pub start: Position,
    pub end: Position,
}

/// The span that stands for no place in particular: line 0, character 0 at
/// both ends.
pub open spec fn zero_range() -> Range {
    Range { start: Position { line: 0, character: 0 }, end: Position { line: 0, character: 0 } }
}

impl Default for Range {
    fn default() -> (range: Self)
        ensures
            range == zero_range(),
    {
        let pos = Position { line: 0, character: 0 };
        Range { start: pos, end: pos }
    }
}

/// A finding: where, how serious, what, and who reports it.
#[derive(Clone, Debug)]
pub struct Diagnostic {
    pub range: Range,
    pub severity: DiagnosticSeverity,
    pub message: Option<String>,
    pub source: Option<String>,
}

/// What a diagnostic is, with its texts as sequences of characters.
pub struct DiagnosticView {
    pub range: Range,
    pub severity: DiagnosticSeverity,
    pub message: Option<Seq<char>>,
    pub source: Option<Seq<char>>,
}

/// The characters of a text that may be absent.
pub open spec fn text_view(text: Option<String>) -> Option<Seq<char>> {
    match text {
        Some(s) => Some(s@),
        None => None,
    }
}

impl View for Diagnostic {
    type V = DiagnosticView;

    open spec fn view(&self) -> DiagnosticView {
        DiagnosticView {
            range: self.range,
            severity: self.severity,
            message: text_view(self.message),
            source: text_view(self.source),
        }
    }
}

/// The views of a sequence of diagnostics, in order.
pub open spec fn diagnostic_views(diagnostics: Seq<Diagnostic>) -> Seq<DiagnosticView> {
    diagnostics.map_values(|d: Diagnostic| d@)
}

/// Appending a diagnostic appends its view.
pub proof fn lemma_diagnostic_views_push(diagnostics: Seq<Diagnostic>, diagnostic: Diagnostic)
    ensures
        diagnostic_views(diagnostics.push(diagnostic)) == diagnostic_views(diagnostics).push(
            diagnostic@,
        ),
{
    assert(diagnostic_views(diagnostics.push(diagnostic)) =~= diagnostic_views(diagnostics).push(
        diagnostic@,
    ));
}

/// The name under which this library reports its findings.
pub open spec fn source_label() -> Seq<char> {
    "custom-lsp"@
}

/// The number `n` as a line or a character offset of a position: itself
/// where a position can hold it, else the nearest value that it can hold.
pub open spec fn as_offset(n: int) -> u32 {
    if n < 0 {
        0u32
    } else if n > u32::MAX {
        u32::MAX
    } else {
        n as u32
    }
}

/// The span of one token: it starts at the token's line and column and ends,
/// on the same line, at the column of the token's last character, which is
/// `column + length - 1`.
pub open spec fn token_range(token: TokenView) -> Range {
    Range {
        start: Position { line: as_offset(token.line), character: as_offset(token.column) },
        end: Position {
            line: as_offset(token.line),
            character: as_offset(token.column + token.lexeme.len() - 1),
        },
    }
}

/// The error that `generate` makes for a token and a message.
pub open spec fn generated(token: TokenView, message: Seq<char>) -> DiagnosticView {
    DiagnosticView {
        range: token_range(token),
        severity: DiagnosticSeverity::Error,
        message: Some(message),
        source: Some(source_label()),
    }
}

/// The error without a place that stands for a message that could not be read.
pub open spec fn synthetic(message: Seq<char>) -> DiagnosticView {
    DiagnosticView {
        range: zero_range(),
        severity: DiagnosticSeverity::Error,
        message: Some(message),
        source: Some(source_label()),
    }
}

fn offset_of(n: usize) -> (offset: u32)
    ensures
        offset == as_offset(n as int),
{
    if n > u32::MAX as usize {
        u32::MAX
    } else {
        n as u32
    }
}

impl Diagnostic {
    /// The error with message `message` on the span of `token`.
    pub fn generate(token: &Token, message: &str) -> (diagnostic: Self)
        ensures
            diagnostic@ == generated(token@, message@),
    {
        let line = offset_of(token.line);
        let length = token.lexeme.as_str().unicode_len();
        let last: u32 = if length == 0 {
            if token.column == 0 {
                0
            } else {
                offset_of(token.column - 1)
            }
        } else if token.column > u32::MAX as usize || length - 1 > u32::MAX as usize
            - token.column {
            u32::MAX
        } else {
            offset_of(token.column + (length - 1))
        };
        Diagnostic {
            range: Range {
                start: Position { line, character: offset_of(token.column) },
                end: Position { line, character: last },
            },
            severity: DiagnosticSeverity::Error,
            message: Some(message.to_owned()),
            source: Some("custom-lsp".to_owned()),
        }
    }

    /// The error without a place that carries `message`: what stands for a
    /// message that could not be read.
    pub fn synthetic(message: String) -> (diagnostic: Self)
        ensures
            diagnostic@ == synthetic(message@),
    {
        Diagnostic {
            range: Range::default(),
            severity: DiagnosticSeverity::Error,
            message: Some(message),
            source: Some("custom-lsp".to_owned()),
        }
    }
}

} // verus!
