//! Collection of the semantic tokens of a parsed file: section headers,
//! settings, variables, test case, task and keyword names, and the items
//! of their bodies, in the order the tree holds them.
//!
//! Columns are estimates made from the tree (a value is placed four
//! columns after its setting's name), in 32-bit wrapping arithmetic;
//! lengths are byte lengths.
use vstd::prelude::*;

use crate::ast::{
    block_holds, body_holds, branches_hold, item_holds, lemma_contains_add, section_blocks, AstPosition,
    BlockModel, BodyItemModel, BranchKind, BranchModel, CommentModel, FileModel, FixtureKind, LoopKind, SectionModel,
    SettingFixtureKind, SettingItemModel, StatementKind, TagsKind, VariableItemModel, VariableRefModel,
};
use crate::inlay::len32;
use crate::path::utf8_byte_len;
use crate::semantic::{encode_semantic_tokens, encode_spec, is_sorted, push, stable_sort, upper_bound, RawToken, TT_COMMENT};
use crate::lsp_items::SemanticTokens;

use vstd::wrapping::u32_specs::{wrapping_add, wrapping_sub};

verus! {

/// Token type of section headers.
pub const TT_NAMESPACE: u32 = 0;

/// Token type of keyword names, in calls and definitions.
pub const TT_FUNCTION: u32 = 1;

/// Token type of variables.
pub const TT_VARIABLE: u32 = 2;

/// Token type of setting names and control words.
pub const TT_KEYWORD: u32 = 3;

/// Token type of setting values such as documentation and import names.
pub const TT_STRING: u32 = 5;

/// Modifier bit of definitions.
pub const TM_DEFINITION: u32 = 1;

/// The token `push` appends: nothing when its length is zero.
pub open spec fn tok(line: u32, start: u32, length: u32, ty: u32, modifiers: u32) -> Seq<RawToken> {
    if length == 0 {
        Seq::empty()
    } else {
        seq![RawToken { line, start_char: start, length, token_type: ty, token_modifiers: modifiers }]
    }
}

/// The column four columns past a setting name of `len` bytes at `col`.
pub open spec fn after(col: u32, len: u32) -> u32 {
    wrapping_add(wrapping_add(col, len), 4)
}

/// The byte length of the name of a fixture setting of a settings section.
pub open spec fn setting_fixture_len(k: SettingFixtureKind) -> u32 {
    match k {
        SettingFixtureKind::SuiteSetup => 11,
        SettingFixtureKind::SuiteTeardown => 14,
        SettingFixtureKind::TestSetup => 10,
        SettingFixtureKind::TestTeardown => 13,
        SettingFixtureKind::TestTemplate => 13,
    }
}

/// The byte length of the name of a tags setting (`Test Tags` ... `Tags`).
pub open spec fn tags_len(k: TagsKind) -> u32 {
    match k {
        TagsKind::Test => 9,
        TagsKind::Default => 12,
        TagsKind::Force => 10,
        TagsKind::Keyword => 12,
        TagsKind::Task => 9,
        TagsKind::Inline => 4,
    }
}

/// The byte length of `[Setup]` or `[Teardown]`.
pub open spec fn fixture_len(k: FixtureKind) -> u32 {
    match k {
        FixtureKind::Setup => 7,
        FixtureKind::Teardown => 10,
    }
}

/// The byte length of a branch marker (`IF`, `ELSE IF`, `ELSE`, `TRY`,
/// `EXCEPT`, `ELSE`, `FINALLY`).
pub open spec fn branch_len(k: BranchKind) -> u32 {
    match k {
        BranchKind::If => 2,
        BranchKind::ElseIf => 7,
        BranchKind::Else => 4,
        BranchKind::Try => 3,
        BranchKind::Except => 6,
        BranchKind::TryElse => 4,
        BranchKind::Finally => 7,
    }
}

/// The byte length of `RETURN`, `BREAK`, `CONTINUE`, `Return` or `Timeout`.
pub open spec fn statement_len(k: StatementKind) -> u32 {
    match k {
        StatementKind::Return => 6,
        StatementKind::Break => 5,
        StatementKind::Continue => 8,
        StatementKind::ReturnSetting => 6,
        StatementKind::Timeout => 7,
    }
}

/// The byte length of `FOR` or `WHILE`.
pub open spec fn loop_len(k: LoopKind) -> u32 {
    match k {
        LoopKind::For => 3,
        LoopKind::While => 5,
    }
}

pub open spec fn comment_tok(value: Seq<char>, line: u32, col: u32) -> Seq<RawToken> {
    tok(line, col, len32(value), TT_COMMENT, 0)
}

/// The tokens of a settings row: its setting name, then its value.
pub open spec fn setting_tokens(item: SettingItemModel) -> Seq<RawToken> {
    match item {
        SettingItemModel::LibraryImport { name, position: p } => tok(p.line, p.column, 7, TT_KEYWORD, 0) + tok(
            p.line,
            after(p.column, 7),
            len32(name@),
            TT_STRING,
            0,
        ),
        SettingItemModel::ResourceImport { path, position: p } => tok(p.line, p.column, 8, TT_KEYWORD, 0) + tok(
            p.line,
            after(p.column, 8),
            len32(path@),
            TT_STRING,
            0,
        ),
        SettingItemModel::VariablesImport { path, position: p } => tok(p.line, p.column, 9, TT_KEYWORD, 0) + tok(
            p.line,
            after(p.column, 9),
            len32(path@),
            TT_STRING,
            0,
        ),
        SettingItemModel::Documentation { value, position: p } => tok(p.line, p.column, 13, TT_KEYWORD, 0) + tok(
            p.line,
            after(p.column, 13),
            len32(value@),
            TT_STRING,
            0,
        ),
        SettingItemModel::Fixture { kind, name, position: p } => tok(p.line, p.column, setting_fixture_len(kind), TT_KEYWORD, 0)
            + tok(p.line, after(p.column, setting_fixture_len(kind)), len32(name@), TT_FUNCTION, 0),
        SettingItemModel::Metadata { position: p } => tok(p.line, p.column, 8, TT_KEYWORD, 0),
        SettingItemModel::Tags { kind, position: p } => tok(p.line, p.column, tags_len(kind), TT_KEYWORD, 0),
        SettingItemModel::Comment { value, position: p } => comment_tok(value@, p.line, p.column),
        SettingItemModel::Other { .. } => Seq::empty(),
    }
}

/// Tokens of each of `names` at one place, of type `ty` with `modifiers`.
pub open spec fn names_tokens(names: Seq<String>, line: u32, col: u32, ty: u32, modifiers: u32) -> Seq<RawToken>
    decreases names.len(),
{
    if names.len() == 0 {
        Seq::empty()
    } else {
        names_tokens(names.drop_last(), line, col, ty, modifiers) + tok(line, col, len32(names.last()@), ty, modifiers)
    }
}

/// The width of assignments, each with its separator.
pub open spec fn assigns_width(assigns: Seq<String>) -> u32
    decreases assigns.len(),
{
    if assigns.len() == 0 {
        0
    } else {
        wrapping_add(assigns_width(assigns.drop_last()), wrapping_add(len32(assigns.last()@), 4))
    }
}

/// The tokens of the variable references of a call on `line`.
pub open spec fn reference_tokens(vars: Seq<VariableRefModel>, line: u32) -> Seq<RawToken>
    decreases vars.len(),
{
    if vars.len() == 0 {
        Seq::empty()
    } else {
        reference_tokens(vars.drop_last(), line) + tok(line, vars.last().start, wrapping_sub(vars.last().end, vars.last().start), TT_VARIABLE, 0)
    }
}

/// The tokens of a body.
pub open spec fn body_tokens(items: Seq<BodyItemModel>) -> Seq<RawToken>
    decreases items,
{
    if items.len() == 0 {
        Seq::empty()
    } else {
        body_tokens(items.drop_last()) + item_tokens(items.last())
    }
}

/// The tokens of a body item: a call gives its assignments, its keyword
/// name after them and its variable references; a setting its name and
/// value; a loop or branch its marker, then its body.
pub open spec fn item_tokens(item: BodyItemModel) -> Seq<RawToken>
    decreases item,
{
    match item {
        BodyItemModel::KeywordCall { name, args, assigns, variables, position: p } => names_tokens(
            assigns@,
            p.line,
            p.column,
            TT_VARIABLE,
            0,
        ) + tok(
            p.line,
            if assigns@.len() == 0 {
                p.column
            } else {
                wrapping_add(p.column, assigns_width(assigns@))
            },
            len32(name@),
            TT_FUNCTION,
            0,
        ) + reference_tokens(variables@, p.line),
        BodyItemModel::Arguments { args, position: p } => names_tokens(args@, p.line, p.column, TT_VARIABLE, TM_DEFINITION),
        BodyItemModel::Documentation { value, position: p } => tok(p.line, p.column, 13, TT_KEYWORD, 0) + tok(
            p.line,
            after(p.column, 13),
            len32(value@),
            TT_STRING,
            0,
        ),
        BodyItemModel::Tags { kind, position: p } => tok(p.line, p.column, tags_len(kind), TT_KEYWORD, 0),
        BodyItemModel::Fixture { kind, name, position: p } => tok(p.line, p.column, fixture_len(kind), TT_KEYWORD, 0)
            + tok(p.line, after(p.column, fixture_len(kind)), len32(name@), TT_FUNCTION, 0),
        BodyItemModel::Template { name, position: p } => tok(p.line, p.column, 8, TT_KEYWORD, 0) + tok(
            p.line,
            after(p.column, 8),
            len32(name@),
            TT_FUNCTION,
            0,
        ),
        BodyItemModel::Comment { value, position: p } => comment_tok(value@, p.line, p.column),
        BodyItemModel::Loop { kind, variables, position: p, body } => tok(p.line, p.column, loop_len(kind), TT_KEYWORD, 0)
            + (if kind == LoopKind::For {
            names_tokens(variables@, p.line, p.column, TT_VARIABLE, 0)
        } else {
            Seq::empty()
        }) + body_tokens(body@),
        BodyItemModel::Branches { branches, .. } => branch_tokens(branches@),
        BodyItemModel::Statement { kind, position: p } => tok(p.line, p.column, statement_len(kind), TT_KEYWORD, 0),
        BodyItemModel::Other { .. } => Seq::empty(),
    }
}

/// The tokens of the branches `bs`: each marker, then its body.
pub open spec fn branch_tokens(bs: Seq<BranchModel>) -> Seq<RawToken>
    decreases bs,
{
    if bs.len() == 0 {
        Seq::empty()
    } else {
        branch_tokens(bs.drop_last()) + tok(
            bs.last().position.line,
            bs.last().position.column,
            branch_len(bs.last().kind),
            TT_KEYWORD,
            0,
        ) + body_tokens(bs.last().body@)
    }
}

/// The tokens of a settings section's rows.
pub open spec fn settings_tokens(items: Seq<SettingItemModel>) -> Seq<RawToken>
    decreases items.len(),
{
    if items.len() == 0 {
        Seq::empty()
    } else {
        settings_tokens(items.drop_last()) + setting_tokens(items.last())
    }
}

/// The tokens of a variables section's rows: definitions and comments.
pub open spec fn variables_tokens(items: Seq<VariableItemModel>) -> Seq<RawToken>
    decreases items.len(),
{
    if items.len() == 0 {
        Seq::empty()
    } else {
        variables_tokens(items.drop_last()) + match items.last() {
            VariableItemModel::Variable { name, position: p, .. } => tok(p.line, p.column, len32(name@), TT_VARIABLE, TM_DEFINITION),
            VariableItemModel::Comment { value, position: p } => comment_tok(value@, p.line, p.column),
            VariableItemModel::Other { .. } => Seq::empty(),
        }
    }
}

/// The tokens of blocks: each name as a definition, then its body.
pub open spec fn blocks_tokens(bs: Seq<BlockModel>) -> Seq<RawToken>
    decreases bs.len(),
{
    if bs.len() == 0 {
        Seq::empty()
    } else {
        blocks_tokens(bs.drop_last()) + tok(
            bs.last().position.line,
            bs.last().position.column,
            len32(bs.last().name@),
            TT_FUNCTION,
            TM_DEFINITION,
        ) + body_tokens(bs.last().body@)
    }
}

/// The tokens of comment lines.
pub open spec fn comments_tokens(cs: Seq<CommentModel>) -> Seq<RawToken>
    decreases cs.len(),
{
    if cs.len() == 0 {
        Seq::empty()
    } else {
        comments_tokens(cs.drop_last()) + comment_tok(cs.last().value@, cs.last().position.line, cs.last().position.column)
    }
}

/// The tokens of a section: its header's name, then its items.
pub open spec fn section_tokens(s: SectionModel) -> Seq<RawToken> {
    match s {
        SectionModel::Settings { header: h, body } => tok(h.position.line, h.position.column, len32(h.name@), TT_NAMESPACE, 0)
            + settings_tokens(body@),
        SectionModel::Variables { header: h, body } => tok(h.position.line, h.position.column, len32(h.name@), TT_NAMESPACE, 0)
            + variables_tokens(body@),
        SectionModel::TestCases { header: h, body } => tok(h.position.line, h.position.column, len32(h.name@), TT_NAMESPACE, 0)
            + blocks_tokens(body@),
        SectionModel::Tasks { header: h, body } => tok(h.position.line, h.position.column, len32(h.name@), TT_NAMESPACE, 0)
            + blocks_tokens(body@),
        SectionModel::Keywords { header: h, body } => tok(h.position.line, h.position.column, len32(h.name@), TT_NAMESPACE, 0)
            + blocks_tokens(body@),
        SectionModel::Comments { header: h, body } => tok(h.position.line, h.position.column, len32(h.name@), TT_NAMESPACE, 0)
            + comments_tokens(body@),
        SectionModel::Invalid => Seq::empty(),
    }
}

/// The tokens of the sections `ss`, in order.
pub open spec fn file_tokens(ss: Seq<SectionModel>) -> Seq<RawToken>
    decreases ss.len(),
{
    if ss.len() == 0 {
        Seq::empty()
    } else {
        file_tokens(ss.drop_last()) + section_tokens(ss.last())
    }
}

// ── Laws ─────────────────────────────────────────────────────────────────────

/// A token is non-empty and of one of the legend's six types.
pub open spec fn good_token(t: RawToken) -> bool {
    t.length > 0 && t.token_type < 6
}

/// Every token of `s` is good.
pub open spec fn all_good(s: Seq<RawToken>) -> bool {
    forall|i: int| 0 <= i < s.len() ==> good_token(#[trigger] s[i])
}

proof fn lemma_good_concat(a: Seq<RawToken>, b: Seq<RawToken>)
    requires
        all_good(a),
        all_good(b),
    ensures
        all_good(a + b),
{
    assert forall|i: int| 0 <= i < (a + b).len() implies good_token(#[trigger] (a + b)[i]) by {
        if i >= a.len() {
            assert((a + b)[i] == b[i - a.len()]);
        }
    }
}

proof fn lemma_good_tok(line: u32, start: u32, length: u32, ty: u32, modifiers: u32)
    requires
        ty < 6,
    ensures
        all_good(tok(line, start, length, ty, modifiers)),
{
}

proof fn lemma_good_names(names: Seq<String>, line: u32, col: u32, ty: u32, modifiers: u32)
    requires
        ty < 6,
    ensures
        all_good(names_tokens(names, line, col, ty, modifiers)),
    decreases names.len(),
{
    if names.len() > 0 {
        lemma_good_names(names.drop_last(), line, col, ty, modifiers);
        lemma_good_concat(
            names_tokens(names.drop_last(), line, col, ty, modifiers),
            tok(line, col, len32(names.last()@), ty, modifiers),
        );
    }
}

proof fn lemma_good_references(vars: Seq<VariableRefModel>, line: u32)
    ensures
        all_good(reference_tokens(vars, line)),
    decreases vars.len(),
{
    if vars.len() > 0 {
        lemma_good_references(vars.drop_last(), line);
        lemma_good_concat(
            reference_tokens(vars.drop_last(), line),
            tok(line, vars.last().start, wrapping_sub(vars.last().end, vars.last().start), TT_VARIABLE, 0),
        );
    }
}

proof fn lemma_good_body(items: Seq<BodyItemModel>)
    ensures
        all_good(body_tokens(items)),
    decreases items,
{
    if items.len() > 0 {
        lemma_good_body(items.drop_last());
        lemma_good_item(items.last());
        lemma_good_concat(body_tokens(items.drop_last()), item_tokens(items.last()));
    }
}

proof fn lemma_good_item(item: BodyItemModel)
    ensures
        all_good(item_tokens(item)),
    decreases item,
{
    match item {
        BodyItemModel::KeywordCall { name, args, assigns, variables, position: p } => {
            lemma_good_names(assigns@, p.line, p.column, TT_VARIABLE, 0);
            let c = if assigns@.len() == 0 {
                p.column
            } else {
                wrapping_add(p.column, assigns_width(assigns@))
            };
            let t = tok(p.line, c, len32(name@), TT_FUNCTION, 0);
            lemma_good_concat(names_tokens(assigns@, p.line, p.column, TT_VARIABLE, 0), t);
            lemma_good_references(variables@, p.line);
            lemma_good_concat(names_tokens(assigns@, p.line, p.column, TT_VARIABLE, 0) + t, reference_tokens(variables@, p.line));
        },
        BodyItemModel::Arguments { args, position: p } => {
            lemma_good_names(args@, p.line, p.column, TT_VARIABLE, TM_DEFINITION);
        },
        BodyItemModel::Documentation { value, position: p } => {
            lemma_good_concat(tok(p.line, p.column, 13, TT_KEYWORD, 0), tok(p.line, after(p.column, 13), len32(value@), TT_STRING, 0));
        },
        BodyItemModel::Fixture { kind, name, position: p } => {
            lemma_good_concat(
                tok(p.line, p.column, fixture_len(kind), TT_KEYWORD, 0),
                tok(p.line, after(p.column, fixture_len(kind)), len32(name@), TT_FUNCTION, 0),
            );
        },
        BodyItemModel::Template { name, position: p } => {
            lemma_good_concat(tok(p.line, p.column, 8, TT_KEYWORD, 0), tok(p.line, after(p.column, 8), len32(name@), TT_FUNCTION, 0));
        },
        BodyItemModel::Loop { kind, variables, position: p, body } => {
            let head = tok(p.line, p.column, loop_len(kind), TT_KEYWORD, 0);
            let vs = if kind == LoopKind::For {
                names_tokens(variables@, p.line, p.column, TT_VARIABLE, 0)
            } else {
                Seq::empty()
            };
            lemma_good_names(variables@, p.line, p.column, TT_VARIABLE, 0);
            lemma_good_body(body@);
            lemma_good_concat(head, vs);
            lemma_good_concat(head + vs, body_tokens(body@));
        },
        BodyItemModel::Branches { branches, .. } => {
            lemma_good_branches(branches@);
        },
        _ => {},
    }
}

proof fn lemma_good_branches(bs: Seq<BranchModel>)
    ensures
        all_good(branch_tokens(bs)),
    decreases bs,
{
    if bs.len() > 0 {
        let b = bs.last();
        lemma_good_branches(bs.drop_last());
        lemma_good_body(b.body@);
        let t = tok(b.position.line, b.position.column, branch_len(b.kind), TT_KEYWORD, 0);
        lemma_good_concat(branch_tokens(bs.drop_last()), t);
        lemma_good_concat(branch_tokens(bs.drop_last()) + t, body_tokens(b.body@));
    }
}

proof fn lemma_good_blocks(bs: Seq<BlockModel>)
    ensures
        all_good(blocks_tokens(bs)),
    decreases bs.len(),
{
    if bs.len() > 0 {
        let b = bs.last();
        lemma_good_blocks(bs.drop_last());
        lemma_good_body(b.body@);
        let t = tok(b.position.line, b.position.column, len32(b.name@), TT_FUNCTION, TM_DEFINITION);
        lemma_good_concat(blocks_tokens(bs.drop_last()), t);
        lemma_good_concat(blocks_tokens(bs.drop_last()) + t, body_tokens(b.body@));
    }
}

proof fn lemma_good_settings(items: Seq<SettingItemModel>)
    ensures
        all_good(settings_tokens(items)),
    decreases items.len(),
{
    if items.len() > 0 {
        lemma_good_settings(items.drop_last());
        let it = items.last();
        match it {
            SettingItemModel::LibraryImport { name, position: p } => {
                lemma_good_concat(tok(p.line, p.column, 7, TT_KEYWORD, 0), tok(p.line, after(p.column, 7), len32(name@), TT_STRING, 0));
            },
            SettingItemModel::ResourceImport { path, position: p } => {
                lemma_good_concat(tok(p.line, p.column, 8, TT_KEYWORD, 0), tok(p.line, after(p.column, 8), len32(path@), TT_STRING, 0));
            },
            SettingItemModel::VariablesImport { path, position: p } => {
                lemma_good_concat(tok(p.line, p.column, 9, TT_KEYWORD, 0), tok(p.line, after(p.column, 9), len32(path@), TT_STRING, 0));
            },
            SettingItemModel::Documentation { value, position: p } => {
                lemma_good_concat(
                    tok(p.line, p.column, 13, TT_KEYWORD, 0),
                    tok(p.line, after(p.column, 13), len32(value@), TT_STRING, 0),
                );
            },
            SettingItemModel::Fixture { kind, name, position: p } => {
                lemma_good_concat(
                    tok(p.line, p.column, setting_fixture_len(kind), TT_KEYWORD, 0),
                    tok(p.line, after(p.column, setting_fixture_len(kind)), len32(name@), TT_FUNCTION, 0),
                );
            },
            _ => {},
        }
        lemma_good_concat(settings_tokens(items.drop_last()), setting_tokens(it));
    }
}

proof fn lemma_good_variables(items: Seq<VariableItemModel>)
    ensures
        all_good(variables_tokens(items)),
    decreases items.len(),
{
    if items.len() > 0 {
        lemma_good_variables(items.drop_last());
        let t = match items.last() {
            VariableItemModel::Variable { name, position: p, .. } => tok(p.line, p.column, len32(name@), TT_VARIABLE, TM_DEFINITION),
            VariableItemModel::Comment { value, position: p } => comment_tok(value@, p.line, p.column),
            VariableItemModel::Other { .. } => Seq::empty(),
        };
        lemma_good_concat(variables_tokens(items.drop_last()), t);
    }
}

proof fn lemma_good_comments(cs: Seq<CommentModel>)
    ensures
        all_good(comments_tokens(cs)),
    decreases cs.len(),
{
    if cs.len() > 0 {
        lemma_good_comments(cs.drop_last());
        lemma_good_concat(
            comments_tokens(cs.drop_last()),
            comment_tok(cs.last().value@, cs.last().position.line, cs.last().position.column),
        );
    }
}

/// Every collected token of a file is non-empty and of one of the legend's
/// six types.
pub proof fn lemma_file_tokens_good(ss: Seq<SectionModel>)
    ensures
        all_good(file_tokens(ss)),
    decreases ss.len(),
{
    if ss.len() > 0 {
        lemma_file_tokens_good(ss.drop_last());
        let s = ss.last();
        match s {
            SectionModel::Settings { header: h, body } => {
                lemma_good_settings(body@);
                lemma_good_concat(tok(h.position.line, h.position.column, len32(h.name@), TT_NAMESPACE, 0), settings_tokens(body@));
            },
            SectionModel::Variables { header: h, body } => {
                lemma_good_variables(body@);
                lemma_good_concat(tok(h.position.line, h.position.column, len32(h.name@), TT_NAMESPACE, 0), variables_tokens(body@));
            },
            SectionModel::TestCases { header: h, body } | SectionModel::Tasks { header: h, body }
            | SectionModel::Keywords { header: h, body } => {
                lemma_good_blocks(body@);
                lemma_good_concat(tok(h.position.line, h.position.column, len32(h.name@), TT_NAMESPACE, 0), blocks_tokens(body@));
            },
            SectionModel::Comments { header: h, body } => {
                lemma_good_comments(body@);
                lemma_good_concat(tok(h.position.line, h.position.column, len32(h.name@), TT_NAMESPACE, 0), comments_tokens(body@));
            },
            SectionModel::Invalid => {},
        }
        lemma_good_concat(file_tokens(ss.drop_last()), section_tokens(s));
    }
}

/// Sorting keeps every token good.
proof fn lemma_sort_good(s: Seq<RawToken>)
    requires
        all_good(s),
    ensures
        all_good(stable_sort(s)),
    decreases s.len(),
{
    if s.len() > 0 {
        let t = s.drop_last();
        assert forall|i: int| 0 <= i < t.len() implies good_token(#[trigger] t[i]) by {
            assert(t[i] == s[i]);
        }
        lemma_sort_good(t);
        let srt = stable_sort(t);
        let x = s.last();
        assert(good_token(s[s.len() - 1]));
        let k = upper_bound(srt, x) as int;
        lemma_upper_bound_le(srt, x);
        let r = srt.take(k).push(x) + srt.skip(k);
        assert forall|i: int| 0 <= i < r.len() implies good_token(#[trigger] r[i]) by {
            if i < k {
                assert(r[i] == srt[i]);
            } else if i > k {
                assert(r[i] == srt[i - 1]);
            }
        }
    }
}

proof fn lemma_upper_bound_le(s: Seq<RawToken>, t: RawToken)
    ensures
        upper_bound(s, t) <= s.len(),
    decreases s.len(),
{
    if s.len() > 0 {
        lemma_upper_bound_le(s.drop_first(), t);
    }
}

// ── Computation ──────────────────────────────────────────────────────────────

pub(crate) fn len_of(s: &String) -> (n: u32)
    ensures
        n == len32(s@),
{
    utf8_byte_len(s.as_str()) as u32
}

fn push_tok(out: &mut Vec<RawToken>, line: u32, start: u32, length: u32, ty: u32, modifiers: u32)
    ensures
        final(out)@ == old(out)@ + tok(line, start, length, ty, modifiers),
{
    push(out, line, start, length, ty, modifiers);
    assert(tok(line, start, length, ty, modifiers) =~= if length == 0 {
        Seq::<RawToken>::empty()
    } else {
        seq![RawToken { line, start_char: start, length, token_type: ty, token_modifiers: modifiers }]
    });
}

fn push_names(out: &mut Vec<RawToken>, names: &Vec<String>, line: u32, col: u32, ty: u32, modifiers: u32)
    ensures
        final(out)@ == old(out)@ + names_tokens(names@, line, col, ty, modifiers),
{
    let ghost o = out@;
    let mut i: usize = 0;
    while i < names.len()
        invariant
            i <= names.len(),
            out@ == o + names_tokens(names@.take(i as int), line, col, ty, modifiers),
        decreases names.len() - i,
    {
        assert(names@.take(i + 1).drop_last() == names@.take(i as int));
        assert(names@.take(i + 1).last() == names@[i as int]);
        let n = len_of(&names[i]);
        push_tok(out, line, col, n, ty, modifiers);
        i += 1;
    }
    assert(names@.take(names.len() as int) == names@);
}

fn width_of(assigns: &Vec<String>) -> (w: u32)
    ensures
        w == assigns_width(assigns@),
{
    let mut w: u32 = 0;
    let mut i: usize = 0;
    while i < assigns.len()
        invariant
            i <= assigns.len(),
            w == assigns_width(assigns@.take(i as int)),
        decreases assigns.len() - i,
    {
        assert(assigns@.take(i + 1).drop_last() == assigns@.take(i as int));
        assert(assigns@.take(i + 1).last() == assigns@[i as int]);
        let n = len_of(&assigns[i]);
        w = w.wrapping_add(n.wrapping_add(4));
        i += 1;
    }
    assert(assigns@.take(assigns.len() as int) == assigns@);
    w
}

fn push_references(out: &mut Vec<RawToken>, vars: &Vec<VariableRefModel>, line: u32)
    ensures
        final(out)@ == old(out)@ + reference_tokens(vars@, line),
{
    let ghost o = out@;
    let mut i: usize = 0;
    while i < vars.len()
        invariant
            i <= vars.len(),
            out@ == o + reference_tokens(vars@.take(i as int), line),
        decreases vars.len() - i,
    {
        assert(vars@.take(i + 1).drop_last() == vars@.take(i as int));
        assert(vars@.take(i + 1).last() == vars@[i as int]);
        let s = vars[i].start;
        let e = vars[i].end;
        push_tok(out, line, s, e.wrapping_sub(s), TT_VARIABLE, 0);
        i += 1;
    }
    assert(vars@.take(vars.len() as int) == vars@);
}

fn tags_len_of(k: TagsKind) -> (n: u32)
    ensures
        n == tags_len(k),
{
    match k {
        TagsKind::Test => 9,
        TagsKind::Default => 12,
        TagsKind::Force => 10,
        TagsKind::Keyword => 12,
        TagsKind::Task => 9,
        TagsKind::Inline => 4,
    }
}

fn setting_fixture_len_of(k: SettingFixtureKind) -> (n: u32)
    ensures
        n == setting_fixture_len(k),
{
    match k {
        SettingFixtureKind::SuiteSetup => 11,
        SettingFixtureKind::SuiteTeardown => 14,
        SettingFixtureKind::TestSetup => 10,
        SettingFixtureKind::TestTeardown => 13,
        SettingFixtureKind::TestTemplate => 13,
    }
}

fn fixture_len_of(k: FixtureKind) -> (n: u32)
    ensures
        n == fixture_len(k),
{
    match k {
        FixtureKind::Setup => 7,
        FixtureKind::Teardown => 10,
    }
}

fn branch_len_of(k: BranchKind) -> (n: u32)
    ensures
        n == branch_len(k),
{
    match k {
        BranchKind::If => 2,
        BranchKind::ElseIf => 7,
        BranchKind::Else => 4,
        BranchKind::Try => 3,
        BranchKind::Except => 6,
        BranchKind::TryElse => 4,
        BranchKind::Finally => 7,
    }
}

fn statement_len_of(k: StatementKind) -> (n: u32)
    ensures
        n == statement_len(k),
{
    match k {
        StatementKind::Return => 6,
        StatementKind::Break => 5,
        StatementKind::Continue => 8,
        StatementKind::ReturnSetting => 6,
        StatementKind::Timeout => 7,
    }
}

fn after_of(col: u32, len: u32) -> (r: u32)
    ensures
        r == after(col, len),
{
    col.wrapping_add(len).wrapping_add(4)
}

fn collect_setting(out: &mut Vec<RawToken>, item: &SettingItemModel)
    ensures
        final(out)@ == old(out)@ + setting_tokens(*item),
{
    match item {
        SettingItemModel::LibraryImport { name, position: p } => {
            push_tok(out, p.line, p.column, 7, TT_KEYWORD, 0);
            push_tok(out, p.line, after_of(p.column, 7), len_of(name), TT_STRING, 0);
        },
        SettingItemModel::ResourceImport { path, position: p } => {
            push_tok(out, p.line, p.column, 8, TT_KEYWORD, 0);
            push_tok(out, p.line, after_of(p.column, 8), len_of(path), TT_STRING, 0);
        },
        SettingItemModel::VariablesImport { path, position: p } => {
            push_tok(out, p.line, p.column, 9, TT_KEYWORD, 0);
            push_tok(out, p.line, after_of(p.column, 9), len_of(path), TT_STRING, 0);
        },
        SettingItemModel::Documentation { value, position: p } => {
            push_tok(out, p.line, p.column, 13, TT_KEYWORD, 0);
            push_tok(out, p.line, after_of(p.column, 13), len_of(value), TT_STRING, 0);
        },
        SettingItemModel::Fixture { kind, name, position: p } => {
            let l = setting_fixture_len_of(*kind);
            push_tok(out, p.line, p.column, l, TT_KEYWORD, 0);
            push_tok(out, p.line, after_of(p.column, l), len_of(name), TT_FUNCTION, 0);
        },
        SettingItemModel::Metadata { position: p } => {
            push_tok(out, p.line, p.column, 8, TT_KEYWORD, 0);
        },
        SettingItemModel::Tags { kind, position: p } => {
            push_tok(out, p.line, p.column, tags_len_of(*kind), TT_KEYWORD, 0);
        },
        SettingItemModel::Comment { value, position: p } => {
            push_tok(out, p.line, p.column, len_of(value), TT_COMMENT, 0);
        },
        SettingItemModel::Other { .. } => {},
    }
}

/// Append the tokens of a body item: a call gives its assignments, its
/// keyword name after them and its variable references; a setting its
/// name and value; a loop or a branch its marker, then its body.
pub fn collect_body_item(out: &mut Vec<RawToken>, item: &BodyItemModel)
    ensures
        final(out)@ == old(out)@ + item_tokens(*item),
    decreases *item,
{
    let ghost o = out@;
    match item {
        BodyItemModel::KeywordCall { name, assigns, variables, position: p, .. } => {
            push_names(out, assigns, p.line, p.column, TT_VARIABLE, 0);
            let name_col = if assigns.len() == 0 {
                p.column
            } else {
                p.column.wrapping_add(width_of(assigns))
            };
            push_tok(out, p.line, name_col, len_of(name), TT_FUNCTION, 0);
            push_references(out, variables, p.line);
            assert(out@ =~= o + item_tokens(*item));
        },
        BodyItemModel::Arguments { args, position: p } => {
            push_names(out, args, p.line, p.column, TT_VARIABLE, TM_DEFINITION);
        },
        BodyItemModel::Documentation { value, position: p } => {
            push_tok(out, p.line, p.column, 13, TT_KEYWORD, 0);
            push_tok(out, p.line, after_of(p.column, 13), len_of(value), TT_STRING, 0);
            assert(out@ =~= o + item_tokens(*item));
        },
        BodyItemModel::Tags { kind, position: p } => {
            push_tok(out, p.line, p.column, tags_len_of(*kind), TT_KEYWORD, 0);
        },
        BodyItemModel::Fixture { kind, name, position: p } => {
            let l = fixture_len_of(*kind);
            push_tok(out, p.line, p.column, l, TT_KEYWORD, 0);
            push_tok(out, p.line, after_of(p.column, l), len_of(name), TT_FUNCTION, 0);
            assert(out@ =~= o + item_tokens(*item));
        },
        BodyItemModel::Template { name, position: p } => {
            push_tok(out, p.line, p.column, 8, TT_KEYWORD, 0);
            push_tok(out, p.line, after_of(p.column, 8), len_of(name), TT_FUNCTION, 0);
            assert(out@ =~= o + item_tokens(*item));
        },
        BodyItemModel::Comment { value, position: p } => {
            push_tok(out, p.line, p.column, len_of(value), TT_COMMENT, 0);
        },
        BodyItemModel::Loop { kind, variables, position: p, body } => {
            let l = match kind {
                LoopKind::For => 3,
                LoopKind::While => 5,
            };
            push_tok(out, p.line, p.column, l, TT_KEYWORD, 0);
            let ghost mid = out@;
            if *kind == LoopKind::For {
                push_names(out, variables, p.line, p.column, TT_VARIABLE, 0);
            }
            let ghost mid2 = out@;
            proof {
                assert(decreases_to!(*item => body@));
            }
            collect_body(out, body);
            assert(out@ =~= o + item_tokens(*item));
        },
        BodyItemModel::Branches { branches, .. } => {
            proof {
                assert(decreases_to!(*item => branches@));
            }
            collect_branches(out, branches);
        },
        BodyItemModel::Statement { kind, position: p } => {
            push_tok(out, p.line, p.column, statement_len_of(*kind), TT_KEYWORD, 0);
        },
        BodyItemModel::Other { .. } => {},
    }
}

fn collect_body(out: &mut Vec<RawToken>, items: &Vec<BodyItemModel>)
    ensures
        final(out)@ == old(out)@ + body_tokens(items@),
    decreases items@,
{
    let ghost o = out@;
    let mut i: usize = 0;
    while i < items.len()
        invariant
            i <= items.len(),
            out@ == o + body_tokens(items@.take(i as int)),
        decreases items.len() - i,
    {
        assert(items@.take(i + 1).drop_last() == items@.take(i as int));
        assert(items@.take(i + 1).last() == items@[i as int]);
        proof {
            assert(decreases_to!(items@ => items@[i as int]));
        }
        collect_body_item(out, &items[i]);
        i += 1;
    }
    assert(items@.take(items.len() as int) == items@);
}

fn collect_branches(out: &mut Vec<RawToken>, bs: &Vec<BranchModel>)
    ensures
        final(out)@ == old(out)@ + branch_tokens(bs@),
    decreases bs@,
{
    let ghost o = out@;
    let mut i: usize = 0;
    while i < bs.len()
        invariant
            i <= bs.len(),
            out@ == o + branch_tokens(bs@.take(i as int)),
        decreases bs.len() - i,
    {
        assert(bs@.take(i + 1).drop_last() == bs@.take(i as int));
        assert(bs@.take(i + 1).last() == bs@[i as int]);
        let b = &bs[i];
        push_tok(out, b.position.line, b.position.column, branch_len_of(b.kind), TT_KEYWORD, 0);
        proof {
            assert(decreases_to!(bs@ => bs@[i as int].body@));
        }
        collect_body(out, &b.body);
        i += 1;
    }
    assert(bs@.take(bs.len() as int) == bs@);
}

fn collect_blocks(out: &mut Vec<RawToken>, bs: &Vec<BlockModel>)
    ensures
        final(out)@ == old(out)@ + blocks_tokens(bs@),
{
    let ghost o = out@;
    let mut i: usize = 0;
    while i < bs.len()
        invariant
            i <= bs.len(),
            out@ == o + blocks_tokens(bs@.take(i as int)),
        decreases bs.len() - i,
    {
        assert(bs@.take(i + 1).drop_last() == bs@.take(i as int));
        assert(bs@.take(i + 1).last() == bs@[i as int]);
        let b = &bs[i];
        push_tok(out, b.position.line, b.position.column, len_of(&b.name), TT_FUNCTION, TM_DEFINITION);
        collect_body(out, &b.body);
        i += 1;
    }
    assert(bs@.take(bs.len() as int) == bs@);
}

/// The tokens of `file`, in the order its tree holds them.
pub fn collect_file(file: &FileModel) -> (r: Vec<RawToken>)
    ensures
        r@ == file_tokens(file.sections@),
{
    let ss = &file.sections;
    let mut out: Vec<RawToken> = Vec::new();
    let mut k: usize = 0;
    while k < ss.len()
        invariant
            k <= ss.len(),
            out@ == file_tokens(ss@.take(k as int)),
        decreases ss.len() - k,
    {
        assert(ss@.take(k + 1).drop_last() == ss@.take(k as int));
        assert(ss@.take(k + 1).last() == ss@[k as int]);
        let ghost before = out@;
        match &ss[k] {
            SectionModel::Settings { header: h, body } => {
                push_tok(&mut out, h.position.line, h.position.column, len_of(&h.name), TT_NAMESPACE, 0);
                let ghost mid = out@;
                let mut i: usize = 0;
                while i < body.len()
                    invariant
                        i <= body.len(),
                        out@ == mid + settings_tokens(body@.take(i as int)),
                    decreases body.len() - i,
                {
                    assert(body@.take(i + 1).drop_last() == body@.take(i as int));
                    assert(body@.take(i + 1).last() == body@[i as int]);
                    collect_setting(&mut out, &body[i]);
                    i += 1;
                }
                assert(body@.take(body.len() as int) == body@);
            },
            SectionModel::Variables { header: h, body } => {
                push_tok(&mut out, h.position.line, h.position.column, len_of(&h.name), TT_NAMESPACE, 0);
                let ghost mid = out@;
                let mut i: usize = 0;
                while i < body.len()
                    invariant
                        i <= body.len(),
                        out@ == mid + variables_tokens(body@.take(i as int)),
                    decreases body.len() - i,
                {
                    assert(body@.take(i + 1).drop_last() == body@.take(i as int));
                    assert(body@.take(i + 1).last() == body@[i as int]);
                    match &body[i] {
                        VariableItemModel::Variable { name, position: p, .. } => {
                            push_tok(&mut out, p.line, p.column, len_of(name), TT_VARIABLE, TM_DEFINITION);
                        },
                        VariableItemModel::Comment { value, position: p } => {
                            push_tok(&mut out, p.line, p.column, len_of(value), TT_COMMENT, 0);
                        },
                        VariableItemModel::Other { .. } => {},
                    }
                    i += 1;
                }
                assert(body@.take(body.len() as int) == body@);
            },
            SectionModel::TestCases { header: h, body } => {
                push_tok(&mut out, h.position.line, h.position.column, len_of(&h.name), TT_NAMESPACE, 0);
                collect_blocks(&mut out, body);
            },
            SectionModel::Tasks { header: h, body } => {
                push_tok(&mut out, h.position.line, h.position.column, len_of(&h.name), TT_NAMESPACE, 0);
                collect_blocks(&mut out, body);
            },
            SectionModel::Keywords { header: h, body } => {
                push_tok(&mut out, h.position.line, h.position.column, len_of(&h.name), TT_NAMESPACE, 0);
                collect_blocks(&mut out, body);
            },
            SectionModel::Comments { header: h, body } => {
                push_tok(&mut out, h.position.line, h.position.column, len_of(&h.name), TT_NAMESPACE, 0);
                let ghost mid = out@;
                let mut i: usize = 0;
                while i < body.len()
                    invariant
                        i <= body.len(),
                        out@ == mid + comments_tokens(body@.take(i as int)),
                    decreases body.len() - i,
                {
                    assert(body@.take(i + 1).drop_last() == body@.take(i as int));
                    assert(body@.take(i + 1).last() == body@[i as int]);
                    let c = &body[i];
                    push_tok(&mut out, c.position.line, c.position.column, len_of(&c.value), TT_COMMENT, 0);
                    i += 1;
                }
                assert(body@.take(body.len() as int) == body@);
            },
            SectionModel::Invalid => {},
        }
        assert(out@ =~= before + section_tokens(ss@[k as int]));
        k += 1;
    }
    assert(ss@.take(ss.len() as int) == ss@);
    out
}

/// The semantic tokens of `file`: its tokens ordered by position (ties in
/// the order collected), then delta-encoded.
pub fn semantic_tokens(file: &FileModel) -> (t: SemanticTokens)
    ensures
        t.result_id is None,
        is_sorted(stable_sort(file_tokens(file.sections@))),
        t.data@ == encode_spec(stable_sort(file_tokens(file.sections@))),
        forall|i: int| 0 <= i < t.data@.len() ==> (#[trigger] t.data@[i]).length > 0 && t.data@[i].token_type < 6,
{
    proof {
        lemma_file_tokens_good(file.sections@);
        lemma_sort_good(file_tokens(file.sections@));
    }
    let raw = collect_file(file);
    encode_semantic_tokens(&raw)
}

// ── Every call has its token ─────────────────────────────────────────────────

proof fn lemma_item_tokens_hold(item: BodyItemModel, x: BodyItemModel, t: RawToken)
    requires
        item_holds(item, x),
        item_tokens(x).contains(t),
    ensures
        item_tokens(item).contains(t),
    decreases item,
{
    if item != x {
        match item {
            BodyItemModel::Loop { kind, variables, position: p, body } => {
                lemma_body_tokens_hold(body@, x, t);
                let head = tok(p.line, p.column, loop_len(kind), TT_KEYWORD, 0) + (if kind == LoopKind::For {
                    names_tokens(variables@, p.line, p.column, TT_VARIABLE, 0)
                } else {
                    Seq::empty()
                });
                lemma_contains_add(head, body_tokens(body@), t);
            },
            BodyItemModel::Branches { branches, .. } => {
                lemma_branch_tokens_hold(branches@, x, t);
            },
            _ => {},
        }
    }
}

proof fn lemma_body_tokens_hold(items: Seq<BodyItemModel>, x: BodyItemModel, t: RawToken)
    requires
        body_holds(items, x),
        item_tokens(x).contains(t),
    ensures
        body_tokens(items).contains(t),
    decreases items,
{
    if body_holds(items.drop_last(), x) {
        lemma_body_tokens_hold(items.drop_last(), x, t);
    } else {
        lemma_item_tokens_hold(items.last(), x, t);
    }
    lemma_contains_add(body_tokens(items.drop_last()), item_tokens(items.last()), t);
}

proof fn lemma_branch_tokens_hold(bs: Seq<BranchModel>, x: BodyItemModel, t: RawToken)
    requires
        branches_hold(bs, x),
        item_tokens(x).contains(t),
    ensures
        branch_tokens(bs).contains(t),
    decreases bs,
{
    let b = bs.last();
    let head = branch_tokens(bs.drop_last()) + tok(b.position.line, b.position.column, branch_len(b.kind), TT_KEYWORD, 0);
    if branches_hold(bs.drop_last(), x) {
        lemma_branch_tokens_hold(bs.drop_last(), x, t);
        lemma_contains_add(branch_tokens(bs.drop_last()), tok(b.position.line, b.position.column, branch_len(b.kind), TT_KEYWORD, 0), t);
    } else {
        lemma_body_tokens_hold(b.body@, x, t);
    }
    lemma_contains_add(head, body_tokens(b.body@), t);
}

proof fn lemma_blocks_tokens_hold(bs: Seq<BlockModel>, j: int, x: BodyItemModel, t: RawToken)
    requires
        0 <= j < bs.len(),
        body_holds(bs[j].body@, x),
        item_tokens(x).contains(t),
    ensures
        blocks_tokens(bs).contains(t),
    decreases bs.len(),
{
    let b = bs.last();
    let head = blocks_tokens(bs.drop_last()) + tok(b.position.line, b.position.column, len32(b.name@), TT_FUNCTION, TM_DEFINITION);
    if j < bs.len() - 1 {
        assert(bs.drop_last()[j] == bs[j]);
        lemma_blocks_tokens_hold(bs.drop_last(), j, x, t);
        lemma_contains_add(blocks_tokens(bs.drop_last()), tok(b.position.line, b.position.column, len32(b.name@), TT_FUNCTION, TM_DEFINITION), t);
    } else {
        lemma_body_tokens_hold(b.body@, x, t);
    }
    lemma_contains_add(head, body_tokens(b.body@), t);
}

proof fn lemma_file_tokens_hold(ss: Seq<SectionModel>, k: int, t: RawToken)
    requires
        0 <= k < ss.len(),
        section_tokens(ss[k]).contains(t),
    ensures
        file_tokens(ss).contains(t),
    decreases ss.len(),
{
    if k < ss.len() - 1 {
        assert(ss.drop_last()[k] == ss[k]);
        lemma_file_tokens_hold(ss.drop_last(), k, t);
    }
    lemma_contains_add(file_tokens(ss.drop_last()), section_tokens(ss.last()), t);
}

/// Every keyword call of the file, at any depth inside loops and branches
/// of a test case, task or keyword, gives a function token for its name: on
/// its line, at its column (after its assignments), as long as the name.
pub proof fn lemma_calls_have_tokens(
    ss: Seq<SectionModel>,
    k: int,
    j: int,
    name: String,
    args: Vec<String>,
    assigns: Vec<String>,
    variables: Vec<VariableRefModel>,
    position: AstPosition,
)
    requires
        block_holds(ss, k, j, BodyItemModel::KeywordCall { name, args, assigns, variables, position }),
        len32(name@) != 0,
    ensures
        file_tokens(ss).contains(
            RawToken {
                line: position.line,
                start_char: if assigns@.len() == 0 {
                    position.column
                } else {
                    wrapping_add(position.column, assigns_width(assigns@))
                },
                length: len32(name@),
                token_type: TT_FUNCTION,
                token_modifiers: 0,
            },
        ),
{
    let x = BodyItemModel::KeywordCall { name, args, assigns, variables, position };
    let col = if assigns@.len() == 0 {
        position.column
    } else {
        wrapping_add(position.column, assigns_width(assigns@))
    };
    let t = RawToken { line: position.line, start_char: col, length: len32(name@), token_type: TT_FUNCTION, token_modifiers: 0 };
    let mid = tok(position.line, col, len32(name@), TT_FUNCTION, 0);
    assert(mid[0] == t);
    let pre = names_tokens(assigns@, position.line, position.column, TT_VARIABLE, 0);
    lemma_contains_add(pre, mid, t);
    lemma_contains_add(pre + mid, reference_tokens(variables@, position.line), t);
    assert(item_tokens(x).contains(t));
    let s = ss[k];
    let h_tok = match s {
        SectionModel::TestCases { header: h, .. } => tok(h.position.line, h.position.column, len32(h.name@), TT_NAMESPACE, 0),
        SectionModel::Tasks { header: h, .. } => tok(h.position.line, h.position.column, len32(h.name@), TT_NAMESPACE, 0),
        SectionModel::Keywords { header: h, .. } => tok(h.position.line, h.position.column, len32(h.name@), TT_NAMESPACE, 0),
        _ => Seq::empty(),
    };
    lemma_blocks_tokens_hold(section_blocks(s), j, x, t);
    lemma_contains_add(h_tok, blocks_tokens(section_blocks(s)), t);
    assert(section_tokens(s) == h_tok + blocks_tokens(section_blocks(s)));
    lemma_file_tokens_hold(ss, k, t);
}

proof fn lemma_section_blocks_tokens(ss: Seq<SectionModel>, k: int, t: RawToken)
    requires
        0 <= k < ss.len(),
        blocks_tokens(section_blocks(ss[k])).contains(t),
    ensures
        file_tokens(ss).contains(t),
{
    let s = ss[k];
    let h_tok = match s {
        SectionModel::TestCases { header: h, .. } => tok(h.position.line, h.position.column, len32(h.name@), TT_NAMESPACE, 0),
        SectionModel::Tasks { header: h, .. } => tok(h.position.line, h.position.column, len32(h.name@), TT_NAMESPACE, 0),
        SectionModel::Keywords { header: h, .. } => tok(h.position.line, h.position.column, len32(h.name@), TT_NAMESPACE, 0),
        _ => Seq::empty(),
    };
    if section_blocks(s).len() > 0 {
        lemma_contains_add(h_tok, blocks_tokens(section_blocks(s)), t);
        assert(section_tokens(s) == h_tok + blocks_tokens(section_blocks(s)));
        lemma_file_tokens_hold(ss, k, t);
    }
}

proof fn lemma_item_token_in_file(ss: Seq<SectionModel>, k: int, j: int, x: BodyItemModel, t: RawToken)
    requires
        block_holds(ss, k, j, x),
        item_tokens(x).contains(t),
    ensures
        file_tokens(ss).contains(t),
{
    lemma_blocks_tokens_hold(section_blocks(ss[k]), j, x, t);
    lemma_section_blocks_tokens(ss, k, t);
}

proof fn lemma_blocks_name_token(bs: Seq<BlockModel>, j: int)
    requires
        0 <= j < bs.len(),
        len32(bs[j].name@) != 0,
    ensures
        blocks_tokens(bs).contains(
            RawToken {
                line: bs[j].position.line,
                start_char: bs[j].position.column,
                length: len32(bs[j].name@),
                token_type: TT_FUNCTION,
                token_modifiers: TM_DEFINITION,
            },
        ),
    decreases bs.len(),
{
    let t = RawToken {
        line: bs[j].position.line,
        start_char: bs[j].position.column,
        length: len32(bs[j].name@),
        token_type: TT_FUNCTION,
        token_modifiers: TM_DEFINITION,
    };
    let b = bs.last();
    let nt = tok(b.position.line, b.position.column, len32(b.name@), TT_FUNCTION, TM_DEFINITION);
    if j < bs.len() - 1 {
        assert(bs.drop_last()[j] == bs[j]);
        lemma_blocks_name_token(bs.drop_last(), j);
        lemma_contains_add(blocks_tokens(bs.drop_last()), nt, t);
    } else {
        assert(nt[0] == t);
        lemma_contains_add(blocks_tokens(bs.drop_last()), nt, t);
    }
    lemma_contains_add(blocks_tokens(bs.drop_last()) + nt, body_tokens(b.body@), t);
}

/// Every test case, task and keyword name gives a function token marked as
/// a definition, at its name line and column.
pub proof fn lemma_block_names_have_tokens(ss: Seq<SectionModel>, k: int, j: int)
    requires
        0 <= k < ss.len(),
        0 <= j < section_blocks(ss[k]).len(),
        len32(section_blocks(ss[k])[j].name@) != 0,
    ensures
        file_tokens(ss).contains(
            RawToken {
                line: section_blocks(ss[k])[j].position.line,
                start_char: section_blocks(ss[k])[j].position.column,
                length: len32(section_blocks(ss[k])[j].name@),
                token_type: TT_FUNCTION,
                token_modifiers: TM_DEFINITION,
            },
        ),
{
    lemma_blocks_name_token(section_blocks(ss[k]), j);
    lemma_section_blocks_tokens(
        ss,
        k,
        RawToken {
            line: section_blocks(ss[k])[j].position.line,
            start_char: section_blocks(ss[k])[j].position.column,
            length: len32(section_blocks(ss[k])[j].name@),
            token_type: TT_FUNCTION,
            token_modifiers: TM_DEFINITION,
        },
    );
}

proof fn lemma_reference_token_in(vars: Seq<VariableRefModel>, i: int, line: u32)
    requires
        0 <= i < vars.len(),
        wrapping_sub(vars[i].end, vars[i].start) != 0,
    ensures
        reference_tokens(vars, line).contains(
            RawToken {
                line,
                start_char: vars[i].start,
                length: wrapping_sub(vars[i].end, vars[i].start),
                token_type: TT_VARIABLE,
                token_modifiers: 0,
            },
        ),
    decreases vars.len(),
{
    let t = RawToken { line, start_char: vars[i].start, length: wrapping_sub(vars[i].end, vars[i].start), token_type: TT_VARIABLE, token_modifiers: 0 };
    let v = vars.last();
    let lt = tok(line, v.start, wrapping_sub(v.end, v.start), TT_VARIABLE, 0);
    if i < vars.len() - 1 {
        assert(vars.drop_last()[i] == vars[i]);
        lemma_reference_token_in(vars.drop_last(), i, line);
    } else {
        assert(lt[0] == t);
    }
    lemma_contains_add(reference_tokens(vars.drop_last(), line), lt, t);
}

/// Every variable reference in the arguments of a call, at any depth, gives
/// a variable token on the call's line at the reference's offset, as long
/// as the reference.
pub proof fn lemma_references_have_tokens(
    ss: Seq<SectionModel>,
    k: int,
    j: int,
    name: String,
    args: Vec<String>,
    assigns: Vec<String>,
    variables: Vec<VariableRefModel>,
    position: AstPosition,
    i: int,
)
    requires
        block_holds(ss, k, j, BodyItemModel::KeywordCall { name, args, assigns, variables, position }),
        0 <= i < variables@.len(),
        wrapping_sub(variables@[i].end, variables@[i].start) != 0,
    ensures
        file_tokens(ss).contains(
            RawToken {
                line: position.line,
                start_char: variables@[i].start,
                length: wrapping_sub(variables@[i].end, variables@[i].start),
                token_type: TT_VARIABLE,
                token_modifiers: 0,
            },
        ),
{
    let x = BodyItemModel::KeywordCall { name, args, assigns, variables, position };
    let t = RawToken {
        line: position.line,
        start_char: variables@[i].start,
        length: wrapping_sub(variables@[i].end, variables@[i].start),
        token_type: TT_VARIABLE,
        token_modifiers: 0,
    };
    lemma_reference_token_in(variables@, i, position.line);
    let col = if assigns@.len() == 0 {
        position.column
    } else {
        wrapping_add(position.column, assigns_width(assigns@))
    };
    let pre = names_tokens(assigns@, position.line, position.column, TT_VARIABLE, 0) + tok(position.line, col, len32(name@), TT_FUNCTION, 0);
    lemma_contains_add(pre, reference_tokens(variables@, position.line), t);
    lemma_item_token_in_file(ss, k, j, x, t);
}

proof fn lemma_branch_marker_in(bs: Seq<BranchModel>, i: int)
    requires
        0 <= i < bs.len(),
    ensures
        branch_tokens(bs).contains(
            RawToken {
                line: bs[i].position.line,
                start_char: bs[i].position.column,
                length: branch_len(bs[i].kind),
                token_type: TT_KEYWORD,
                token_modifiers: 0,
            },
        ),
    decreases bs.len(),
{
    let t = RawToken { line: bs[i].position.line, start_char: bs[i].position.column, length: branch_len(bs[i].kind), token_type: TT_KEYWORD, token_modifiers: 0 };
    let b = bs.last();
    let mt = tok(b.position.line, b.position.column, branch_len(b.kind), TT_KEYWORD, 0);
    if i < bs.len() - 1 {
        assert(bs.drop_last()[i] == bs[i]);
        lemma_branch_marker_in(bs.drop_last(), i);
    } else {
        assert(branch_len(b.kind) != 0);
        assert(mt[0] == t);
    }
    lemma_contains_add(branch_tokens(bs.drop_last()), mt, t);
    lemma_contains_add(branch_tokens(bs.drop_last()) + mt, body_tokens(b.body@), t);
}

/// Every loop and every branch marker, at any depth, gives a keyword token
/// at its line and column, as long as its marker (`FOR`, `WHILE`, `IF`,
/// `ELSE IF`, `ELSE`, `TRY`, `EXCEPT`, `FINALLY`).
pub proof fn lemma_markers_have_tokens(ss: Seq<SectionModel>, k: int, j: int, x: BodyItemModel, i: int)
    requires
        block_holds(ss, k, j, x),
    ensures
        x matches BodyItemModel::Loop { kind, position, .. } ==> file_tokens(ss).contains(
            RawToken { line: position.line, start_char: position.column, length: loop_len(kind), token_type: TT_KEYWORD, token_modifiers: 0 },
        ),
        x matches BodyItemModel::Branches { branches, .. } ==> (0 <= i < branches@.len() ==> file_tokens(ss).contains(
            RawToken {
                line: branches@[i].position.line,
                start_char: branches@[i].position.column,
                length: branch_len(branches@[i].kind),
                token_type: TT_KEYWORD,
                token_modifiers: 0,
            },
        )),
{
    match x {
        BodyItemModel::Loop { kind, variables, position: p, body } => {
            let t = RawToken { line: p.line, start_char: p.column, length: loop_len(kind), token_type: TT_KEYWORD, token_modifiers: 0 };
            let mt = tok(p.line, p.column, loop_len(kind), TT_KEYWORD, 0);
            assert(mt[0] == t);
            let vt = if kind == LoopKind::For {
                names_tokens(variables@, p.line, p.column, TT_VARIABLE, 0)
            } else {
                Seq::empty()
            };
            lemma_contains_add(mt, vt, t);
            lemma_contains_add(mt + vt, body_tokens(body@), t);
            lemma_item_token_in_file(ss, k, j, x, t);
        },
        BodyItemModel::Branches { branches, .. } => {
            if 0 <= i < branches@.len() {
                lemma_branch_marker_in(branches@, i);
                let t = RawToken {
                    line: branches@[i].position.line,
                    start_char: branches@[i].position.column,
                    length: branch_len(branches@[i].kind),
                    token_type: TT_KEYWORD,
                    token_modifiers: 0,
                };
                lemma_item_token_in_file(ss, k, j, x, t);
            }
        },
        _ => {},
    }
}

} // verus!
