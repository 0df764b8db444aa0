//! The Language Server Protocol values that the language features build:
//! diagnostics, folding ranges, symbols, completions, edits and semantic
//! tokens.
use vstd::prelude::*;

use crate::lsp::{Position, Range, TextEdit};

verus! {

/// How severe a diagnostic is.
#[derive(Clone, Copy, Debug, PartialEq, Eq, Structural)]
pub enum DiagnosticSeverity {
    Error,
    Warning,
    Information,
    Hint,
}

/// A problem found in a document.
#[derive(Clone, Debug)]
pub struct Diagnostic {
    /// Where the problem is.
    pub range: Range,
    /// How severe it is, when known.
    pub severity: Option<DiagnosticSeverity>,
    /// A code identifying the kind of problem.
    pub code: Option<String>,
    /// What produced the diagnostic.
    pub source: Option<String>,
    /// The message shown to the user.
    pub message: String,
}

/// What a folding range folds.
#[derive(Clone, Copy, Debug, PartialEq, Eq, Structural)]
pub enum FoldingRangeKind {
    Comment,
    Imports,
    Region,
}

/// A range of lines that an editor can fold.
#[derive(Clone, Debug)]
pub struct FoldingRange {
    pub start_line: u32,
    pub start_character: Option<u32>,
    pub end_line: u32,
    pub end_character: Option<u32>,
    pub kind: Option<FoldingRangeKind>,
    pub collapsed_text: Option<String>,
}

/// The kind of a document symbol.
#[derive(Clone, Copy, Debug, PartialEq, Eq, Structural)]
pub enum SymbolKind {
    File,
    Module,
    Namespace,
    Package,
    Class,
    Method,
    Property,
    Field,
    Constructor,
    Enum,
    Interface,
    Function,
    Variable,
    Constant,
    Text,
    Number,
    Boolean,
    Array,
    Object,
    Key,
    Null,
    EnumMember,
    Struct,
    Event,
    Operator,
    TypeParameter,
}

/// A named part of a document, with the parts nested in it.
#[derive(Debug)]
pub struct DocumentSymbol {
    pub name: String,
    pub detail: Option<String>,
    pub kind: SymbolKind,
    pub deprecated: Option<bool>,
    pub range: Range,
    pub selection_range: Range,
    pub children: Option<Vec<DocumentSymbol>>,
}

/// The kind of a completion item.
#[derive(Clone, Copy, Debug, PartialEq, Eq, Structural)]
pub enum CompletionItemKind {
    Text,
    Method,
    Function,
    Field,
    Variable,
    Module,
    Property,
    Keyword,
    Snippet,
    File,
    Folder,
    Constant,
}

/// How a completion's insert text is to be read.
#[derive(Clone, Copy, Debug, PartialEq, Eq, Structural)]
pub enum InsertTextFormat {
    PlainText,
    Snippet,
}

/// A completion proposal.
#[derive(Clone, Debug)]
pub struct CompletionItem {
    pub label: String,
    pub kind: Option<CompletionItemKind>,
    pub detail: Option<String>,
    pub documentation: Option<String>,
    pub insert_text: Option<String>,
    pub insert_text_format: Option<InsertTextFormat>,
    pub deprecated: Option<bool>,
}

/// A command a client can run, with its arguments as strings.
#[derive(Clone, Debug)]
pub struct Command {
    pub title: String,
    pub command: String,
    pub arguments: Option<Vec<String>>,
}

/// A command shown in the editor above a range.
#[derive(Clone, Debug)]
pub struct CodeLens {
    pub range: Range,
    pub command: Option<Command>,
}

/// Edits to documents, by document URI.
#[derive(Clone, Debug)]
pub struct WorkspaceEdit {
    pub changes: Option<Vec<(String, Vec<TextEdit>)>>,
}

/// A range in the document at `uri`.
#[derive(Clone, Debug)]
pub struct Location {
    pub uri: String,
    pub range: Range,
}

/// A symbol found by a workspace search, with where it is defined and the
/// name of what contains it.
#[derive(Clone, Debug)]
pub struct SymbolInformation {
    pub name: String,
    pub kind: SymbolKind,
    pub deprecated: Option<bool>,
    pub location: Location,
    pub container_name: Option<String>,
}

/// A parameter of a signature.
#[derive(Clone, Debug)]
pub struct ParameterInformation {
    pub label: String,
    pub documentation: Option<String>,
}

/// The signature of a callable, with its parameters.
#[derive(Clone, Debug)]
pub struct SignatureInformation {
    pub label: String,
    pub documentation: Option<String>,
    pub parameters: Option<Vec<ParameterInformation>>,
    pub active_parameter: Option<u32>,
}

/// The signatures offered at a position, with the active one.
#[derive(Clone, Debug)]
pub struct SignatureHelp {
    pub signatures: Vec<SignatureInformation>,
    pub active_signature: Option<u32>,
    pub active_parameter: Option<u32>,
}

/// What an inlay hint annotates.
#[derive(Clone, Copy, Debug, PartialEq, Eq, Structural)]
pub enum InlayHintKind {
    Type,
    Parameter,
}

/// A label shown inline in the editor at a position.
#[derive(Clone, Debug)]
pub struct InlayHint {
    pub position: Position,
    pub label: String,
    pub kind: Option<InlayHintKind>,
    pub padding_left: Option<bool>,
    pub padding_right: Option<bool>,
}

/// A range to select, with the larger range that selection grows to.
#[derive(Debug)]
pub struct SelectionRange {
    pub range: Range,
    pub parent: Option<Box<SelectionRange>>,
}

/// The token types and modifiers a server's semantic tokens use, by index.
#[derive(Clone, Debug)]
pub struct SemanticTokensLegend {
    pub token_types: Vec<String>,
    pub token_modifiers: Vec<String>,
}

/// One semantic token, placed relative to the one before it.
#[derive(Clone, Copy, Debug, PartialEq, Eq, Structural)]
pub struct SemanticToken {
    /// Lines after the previous token's line.
    pub delta_line: u32,
    /// Columns after the previous token's start on the same line, or the
    /// column on a new line.
    pub delta_start: u32,
    pub length: u32,
    pub token_type: u32,
    pub token_modifiers_bitset: u32,
}

/// The semantic tokens of a document.
#[derive(Clone, Debug)]
pub struct SemanticTokens {
    pub result_id: Option<String>,
    pub data: Vec<SemanticToken>,
}

/// How a highlighted occurrence uses its symbol.
#[derive(Clone, Copy, Debug, PartialEq, Eq, Structural)]
pub enum DocumentHighlightKind {
    Text,
    Read,
    Write,
}

/// An occurrence of a symbol to highlight in a document.
#[derive(Clone, Copy, Debug)]
pub struct DocumentHighlight {
    pub range: Range,
    pub kind: Option<DocumentHighlightKind>,
}

/// The format of a markup text.
#[derive(Clone, Copy, Debug, PartialEq, Eq, Structural)]
pub enum MarkupKind {
    PlainText,
    Markdown,
}

/// A text in a markup format.
#[derive(Clone, Debug)]
pub struct MarkupContent {
    pub kind: MarkupKind,
    pub value: String,
}

/// What hovering over a position shows.
#[derive(Clone, Debug)]
pub struct Hover {
    pub contents: MarkupContent,
    pub range: Option<Range>,
}

/// What a code action does.
#[derive(Clone, Copy, Debug, PartialEq, Eq, Structural)]
pub enum CodeActionKind {
    QuickFix,
    RefactorExtract,
}

/// A change the editor offers to make: its title, kind, the diagnostics it
/// resolves and its edits.
#[derive(Clone, Debug)]
pub struct CodeAction {
    pub title: String,
    pub kind: Option<CodeActionKind>,
    pub diagnostics: Option<Vec<Diagnostic>>,
    pub edit: Option<WorkspaceEdit>,
}

} // verus!
