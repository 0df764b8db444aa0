//! The syntax tree of a Robot Framework file, as the language features read
//! it: sections with their headers, the items of each section, the blocks
//! (test cases, tasks, keywords) with their bodies, and the source span of
//! each of them.  A parser fills it; the features only read it.
use vstd::prelude::*;

use crate::lsp::{position_in_range, range_holds_closed, Position, Range};

verus! {

/// A span of source text: zero-based start line and column, and the line
/// and column where it ends.
#[derive(Clone, Copy, Debug, PartialEq, Eq, Structural)]
pub struct AstPosition {
    pub line: u32,
    pub column: u32,
    pub end_line: u32,
    pub end_column: u32,
}

/// A section header such as `*** Keywords ***`, with the section's name.
#[derive(Clone, Debug)]
pub struct SectionHeader {
    pub name: String,
    pub position: AstPosition,
}

/// The setting a fixture row of a settings section sets.
#[derive(Clone, Copy, Debug, PartialEq, Eq, Structural)]
pub enum SettingFixtureKind {
    SuiteSetup,
    SuiteTeardown,
    TestSetup,
    TestTeardown,
    TestTemplate,
}

/// Which tags a tags row sets.
#[derive(Clone, Copy, Debug, PartialEq, Eq, Structural)]
pub enum TagsKind {
    /// `Test Tags`.
    Test,
    /// `Default Tags`.
    Default,
    /// `Force Tags`.
    Force,
    /// `Keyword Tags`.
    Keyword,
    /// `Task Tags`.
    Task,
    /// `[Tags]` inside a test or keyword.
    Inline,
}

/// An item of a settings section.
#[derive(Clone, Debug)]
pub enum SettingItemModel {
    /// `Library    name`.
    LibraryImport { name: String, position: AstPosition },
    /// `Resource    path`.
    ResourceImport { path: String, position: AstPosition },
    /// `Variables    path`.
    VariablesImport { path: String, position: AstPosition },
    /// `Documentation    value`.
    Documentation { value: String, position: AstPosition },
    /// A suite or test setup, teardown or template naming a keyword.
    Fixture { kind: SettingFixtureKind, name: String, position: AstPosition },
    /// `Metadata    name    value`.
    Metadata { position: AstPosition },
    /// A tags row.
    Tags { kind: TagsKind, position: AstPosition },
    /// A comment.
    Comment { value: String, position: AstPosition },
    /// An empty line or unparsable row.
    Other { position: AstPosition },
}

/// An item of a variables section.
#[derive(Clone, Debug)]
pub enum VariableItemModel {
    /// A variable definition such as `${NAME}    value`, with the values
    /// given to it.
    Variable { name: String, value: Vec<String>, position: AstPosition },
    /// A comment.
    Comment { value: String, position: AstPosition },
    /// An empty line or unparsable row.
    Other { position: AstPosition },
}

/// A comment line with its text.
#[derive(Clone, Debug)]
pub struct CommentModel {
    pub value: String,
    pub position: AstPosition,
}

/// The marker that opens a branch of an `IF` or `TRY` block.
#[derive(Clone, Copy, Debug, PartialEq, Eq, Structural)]
pub enum BranchKind {
    If,
    ElseIf,
    Else,
    Try,
    Except,
    TryElse,
    Finally,
}

/// A branch of an `IF` or `TRY` block, with its body.
#[derive(Debug)]
pub struct BranchModel {
    pub kind: BranchKind,
    pub position: AstPosition,
    pub body: Vec<BodyItemModel>,
}

/// Which loop a loop is.
#[derive(Clone, Copy, Debug, PartialEq, Eq, Structural)]
pub enum LoopKind {
    For,
    While,
}

/// A one-word statement or setting of a body.
#[derive(Clone, Copy, Debug, PartialEq, Eq, Structural)]
pub enum StatementKind {
    /// `RETURN`.
    Return,
    /// `BREAK`.
    Break,
    /// `CONTINUE`.
    Continue,
    /// `[Return]`.
    ReturnSetting,
    /// `[Timeout]`.
    Timeout,
}

/// Whether a body fixture is a setup or a teardown.
#[derive(Clone, Copy, Debug, PartialEq, Eq, Structural)]
pub enum FixtureKind {
    Setup,
    Teardown,
}

/// A variable reference found in an argument of a keyword call: its text as
/// written (`${name}`), its start and end offset in the argument, and the
/// column of the line where that argument starts.
#[derive(Clone, Debug)]
pub struct VariableRefModel {
    pub text: String,
    pub start: u32,
    pub end: u32,
    pub column: u32,
}

/// An item of a test case, task or keyword body.
#[derive(Debug)]
pub enum BodyItemModel {
    /// A keyword call: the variables it assigns, the keyword's name, the
    /// arguments given to it, and the variable references found in those
    /// arguments, in the order they are written.
    KeywordCall {
        name: String,
        args: Vec<String>,
        assigns: Vec<String>,
        variables: Vec<VariableRefModel>,
        position: AstPosition,
    },
    /// An `[Arguments]` setting with the argument names.
    Arguments { args: Vec<String>, position: AstPosition },
    /// A `[Documentation]` setting.
    Documentation { value: String, position: AstPosition },
    /// A `[Tags]` setting.
    Tags { kind: TagsKind, position: AstPosition },
    /// A `[Setup]` or `[Teardown]` naming a keyword.
    Fixture { kind: FixtureKind, name: String, position: AstPosition },
    /// A `[Template]` naming a keyword.
    Template { name: String, position: AstPosition },
    /// A comment.
    Comment { value: String, position: AstPosition },
    /// A `FOR` loop with its loop variables, or a `WHILE` loop, with its
    /// body.
    Loop { kind: LoopKind, variables: Vec<String>, position: AstPosition, body: Vec<BodyItemModel> },
    /// An `IF` or `TRY` block with its branches.
    Branches { position: AstPosition, branches: Vec<BranchModel> },
    /// `RETURN`, `BREAK`, `CONTINUE`, `[Return]` or `[Timeout]`.
    Statement { kind: StatementKind, position: AstPosition },
    /// Template arguments, an empty line or an unparsable row.
    Other { position: AstPosition },
}

/// A test case, task or keyword: its name, the span of its name line and
/// its body.
#[derive(Debug)]
pub struct BlockModel {
    pub name: String,
    pub position: AstPosition,
    pub body: Vec<BodyItemModel>,
}

/// A section of a file.
#[derive(Debug)]
pub enum SectionModel {
    Settings { header: SectionHeader, body: Vec<SettingItemModel> },
    Variables { header: SectionHeader, body: Vec<VariableItemModel> },
    TestCases { header: SectionHeader, body: Vec<BlockModel> },
    Tasks { header: SectionHeader, body: Vec<BlockModel> },
    Keywords { header: SectionHeader, body: Vec<BlockModel> },
    /// A comments section with its comment lines.
    Comments { header: SectionHeader, body: Vec<CommentModel> },
    /// Text before any valid section header.
    Invalid,
}

/// A parsed file: its sections in order.
#[derive(Debug)]
pub struct FileModel {
    pub sections: Vec<SectionModel>,
}

/// The LSP range of a span.
pub open spec fn ast_range(p: AstPosition) -> Range {
    Range {
        start: Position { line: p.line, character: p.column },
        end: Position { line: p.end_line, character: p.end_column },
    }
}

/// The LSP range of a span.
pub fn ast_pos_to_range(p: &AstPosition) -> (r: Range)
    ensures
        r == ast_range(*p),
{
    Range {
        start: Position { line: p.line, character: p.column },
        end: Position { line: p.end_line, character: p.end_column },
    }
}

/// `pos` falls within the span `p`, both ends included.
pub fn position_in_ast(pos: Position, p: &AstPosition) -> (r: bool)
    ensures
        r == range_holds_closed(ast_range(*p), pos),
{
    position_in_range(pos, ast_pos_to_range(p))
}

/// The span of a body item.
pub open spec fn body_item_position(item: BodyItemModel) -> AstPosition {
    match item {
        BodyItemModel::KeywordCall { position, .. } => position,
        BodyItemModel::Arguments { position, .. } => position,
        BodyItemModel::Documentation { position, .. } => position,
        BodyItemModel::Tags { position, .. } => position,
        BodyItemModel::Fixture { position, .. } => position,
        BodyItemModel::Template { position, .. } => position,
        BodyItemModel::Comment { position, .. } => position,
        BodyItemModel::Loop { position, .. } => position,
        BodyItemModel::Branches { position, .. } => position,
        BodyItemModel::Statement { position, .. } => position,
        BodyItemModel::Other { position } => position,
    }
}

/// The span of a body item.
pub fn body_position_of(item: &BodyItemModel) -> (p: AstPosition)
    ensures
        p == body_item_position(*item),
{
    match item {
        BodyItemModel::KeywordCall { position, .. } => *position,
        BodyItemModel::Arguments { position, .. } => *position,
        BodyItemModel::Documentation { position, .. } => *position,
        BodyItemModel::Tags { position, .. } => *position,
        BodyItemModel::Fixture { position, .. } => *position,
        BodyItemModel::Template { position, .. } => *position,
        BodyItemModel::Comment { position, .. } => *position,
        BodyItemModel::Loop { position, .. } => *position,
        BodyItemModel::Branches { position, .. } => *position,
        BodyItemModel::Statement { position, .. } => *position,
        BodyItemModel::Other { position } => *position,
    }
}

// ── Where an item lies ───────────────────────────────────────────────────────

/// `x` is `item` itself or lies inside it, in the body of a loop or of a
/// branch, at any depth.
pub open spec fn item_holds(item: BodyItemModel, x: BodyItemModel) -> bool
    decreases item,
{
    item == x || match item {
        BodyItemModel::Loop { body, .. } => body_holds(body@, x),
        BodyItemModel::Branches { branches, .. } => branches_hold(branches@, x),
        _ => false,
    }
}

/// `x` is one of `items` or lies inside one of them, at any depth.
pub open spec fn body_holds(items: Seq<BodyItemModel>, x: BodyItemModel) -> bool
    decreases items,
{
    items.len() > 0 && (body_holds(items.drop_last(), x) || item_holds(items.last(), x))
}

/// `x` lies in the body of one of the branches `bs`, at any depth.
pub open spec fn branches_hold(bs: Seq<BranchModel>, x: BodyItemModel) -> bool
    decreases bs,
{
    bs.len() > 0 && (branches_hold(bs.drop_last(), x) || body_holds(bs.last().body@, x))
}

/// The test cases, tasks or keywords of a section; nothing for the others.
pub open spec fn section_blocks(s: SectionModel) -> Seq<BlockModel> {
    match s {
        SectionModel::TestCases { body, .. } => body@,
        SectionModel::Tasks { body, .. } => body@,
        SectionModel::Keywords { body, .. } => body@,
        _ => Seq::empty(),
    }
}

/// The line of a section's header; 0 for text before any header.
pub open spec fn header_line(s: SectionModel) -> u32 {
    match s {
        SectionModel::Settings { header, .. } => header.position.line,
        SectionModel::Variables { header, .. } => header.position.line,
        SectionModel::TestCases { header, .. } => header.position.line,
        SectionModel::Tasks { header, .. } => header.position.line,
        SectionModel::Keywords { header, .. } => header.position.line,
        SectionModel::Comments { header, .. } => header.position.line,
        SectionModel::Invalid => 0,
    }
}

/// `x` lies, at any depth, in the body of block `j` of section `k` of `ss`.
pub open spec fn block_holds(ss: Seq<SectionModel>, k: int, j: int, x: BodyItemModel) -> bool {
    &&& 0 <= k < ss.len()
    &&& 0 <= j < section_blocks(ss[k]).len()
    &&& body_holds(section_blocks(ss[k])[j].body@, x)
}

/// Whatever `a` or `b` holds, `a + b` holds.
pub proof fn lemma_contains_add<A>(a: Seq<A>, b: Seq<A>, x: A)
    requires
        a.contains(x) || b.contains(x),
    ensures
        (a + b).contains(x),
{
    if a.contains(x) {
        let i = choose|i: int| 0 <= i < a.len() && a[i] == x;
        assert((a + b)[i] == x);
    } else {
        let i = choose|i: int| 0 <= i < b.len() && b[i] == x;
        assert((a + b)[a.len() + i] == x);
    }
}

} // verus!
