//! Hover: Markdown documentation for the keyword called under the cursor
//! (its signature and documentation, from the namespace or from the file's
//! own keywords) and for a variable referenced under the cursor (its name
//! and value in the file's variables sections).
use vstd::prelude::*;

use crate::ast::{BlockModel, BodyItemModel, FileModel, SectionModel, VariableItemModel};
use crate::completion::{body_arguments, first_arguments, local_keywords, strings_view};
use crate::keywords::{normalize_var_name, normalized_var_name};
use crate::lsp::Position;
use crate::lsp_items::{Hover, MarkupContent, MarkupKind};
use crate::occurrences::{hover_lookup, lookup, token_under, Lookup};
use crate::signature::{find_named, first_named};
use crate::text::{chars_of, extend_chars, join, join_chars, str_eq, string_of};

verus! {

/// What the namespace (the libraries and resources a file imports) knows
/// of a keyword: its name, argument names, library, documentation and
/// deprecation message.
#[derive(Debug, Clone)]
pub struct KeywordDocModel {
    pub name: String,
    pub args: Vec<String>,
    pub library_name: Option<String>,
    pub doc: String,
    pub deprecated: Option<String>,
}

/// Each of `args` in asterisks.
pub open spec fn emphasized(args: Seq<Seq<char>>) -> Seq<Seq<char>> {
    Seq::new(args.len(), |i: int| "*"@ + args[i] + "*"@)
}

/// ` (*a*, *b*)` for the arguments `a`, `b`; nothing without arguments.
pub open spec fn args_suffix(args: Seq<Seq<char>>) -> Seq<char> {
    if args.len() == 0 {
        Seq::empty()
    } else {
        " ("@ + join(emphasized(args), ", "@) + ")"@
    }
}

/// The hover of a namespace keyword: its name in bold with its arguments,
/// its library, its documentation after a rule, and its deprecation.
pub open spec fn keyword_hover_md(k: KeywordDocModel) -> Seq<char> {
    "**"@ + k.name@ + "**"@ + args_suffix(strings_view(k.args@)) + "\n"@ + match k.library_name {
        Some(l) => "\n*Library: "@ + l@ + "*\n"@,
        None => Seq::empty(),
    } + if k.doc@.len() == 0 {
        Seq::empty()
    } else {
        "\n---\n\n"@ + k.doc@
    } + match k.deprecated {
        Some(d) => "\n\n> ⚠️ **Deprecated**: "@ + d@,
        None => Seq::empty(),
    }
}

/// The value of the first `[Documentation]` item of a body.
pub open spec fn body_documentation(items: Seq<BodyItemModel>) -> Option<Seq<char>>
    decreases items.len(),
{
    if items.len() == 0 {
        None
    } else {
        match body_documentation(items.drop_last()) {
            Some(d) => Some(d),
            None => match items.last() {
                BodyItemModel::Documentation { value, .. } => Some(value@),
                _ => None,
            },
        }
    }
}

/// The hover of a keyword of the file: its name in bold with the arguments
/// of its first `[Arguments]`, and the value of its first
/// `[Documentation]`, when not empty, after a rule.
pub open spec fn local_keyword_md(b: BlockModel) -> Seq<char> {
    "**"@ + b.name@ + "**"@ + args_suffix(body_arguments(b.body@)) + match body_documentation(b.body@) {
        Some(d) => if d.len() == 0 {
            Seq::empty()
        } else {
            "\n\n---\n\n"@ + d
        },
        None => Seq::empty(),
    }
}

/// The name and values of the first definition among `items` of the
/// variable normalized `norm`.
pub open spec fn variable_def_in(items: Seq<VariableItemModel>, norm: Seq<char>) -> Option<(Seq<char>, Seq<Seq<char>>)>
    decreases items.len(),
{
    if items.len() == 0 {
        None
    } else {
        match variable_def_in(items.drop_last(), norm) {
            Some(d) => Some(d),
            None => match items.last() {
                VariableItemModel::Variable { name, value, .. } => if normalized_var_name(name@) == norm {
                    Some((name@, strings_view(value@)))
                } else {
                    None
                },
                _ => None,
            },
        }
    }
}

/// The name and values of the first definition in the variables sections
/// of `ss` of the variable normalized `norm`.
pub open spec fn variable_def(ss: Seq<SectionModel>, norm: Seq<char>) -> Option<(Seq<char>, Seq<Seq<char>>)>
    decreases ss.len(),
{
    if ss.len() == 0 {
        None
    } else {
        match variable_def(ss.drop_last(), norm) {
            Some(d) => Some(d),
            None => match ss.last() {
                SectionModel::Variables { body, .. } => variable_def_in(body@, norm),
                _ => None,
            },
        }
    }
}

/// The hover of a suite variable: its name in bold, then its values
/// separated by four spaces (or `(no value)`) as code.
pub open spec fn variable_md(name: Seq<char>, values: Seq<Seq<char>>) -> Seq<char> {
    "**"@ + name + "** = `"@ + (if values.len() == 0 {
        "(no value)"@
    } else {
        join(values, "    "@)
    }) + "`\n\n*Suite variable*"@
}

/// The Markdown shown when hovering `pos`, given what the namespace knows
/// of the keyword called there (`ns_doc`): for a called keyword, the
/// namespace's documentation, else that of the file's first keyword of that
/// name; for a referenced variable, its first definition in the file.
/// Nothing elsewhere.
pub open spec fn hover_spec(ss: Seq<SectionModel>, ns_doc: Option<KeywordDocModel>, pos: Position) -> Option<
    Seq<char>,
> {
    match lookup(ss, pos, hover_lookup()) {
        Some((true, name)) => match ns_doc {
            Some(k) => Some(keyword_hover_md(k)),
            None => match first_named(local_keywords(ss), name) {
                Some(b) => Some(local_keyword_md(b)),
                None => None,
            },
        },
        Some((false, norm)) => match variable_def(ss, norm) {
            Some((name, values)) => Some(variable_md(name, values)),
            None => None,
        },
        None => None,
    }
}

// ── Computation ──────────────────────────────────────────────────────────────

pub(crate) fn push_text(out: &mut Vec<char>, s: &str)
    ensures
        final(out)@ == old(out)@ + s@,
{
    let cs = chars_of(s);
    extend_chars(out, cs.as_slice());
}

pub(crate) fn join_strings(values: &Vec<String>, sep: &str) -> (r: Vec<char>)
    ensures
        r@ == join(strings_view(values@), sep@),
{
    let mut parts: Vec<Vec<char>> = Vec::new();
    let mut i: usize = 0;
    while i < values.len()
        invariant
            i <= values.len(),
            parts.len() == i,
            forall|j: int| 0 <= j < i ==> (#[trigger] parts@[j])@ == values@[j]@,
        decreases values.len() - i,
    {
        parts.push(chars_of(values[i].as_str()));
        i += 1;
    }
    assert(parts@.map_values(|p: Vec<char>| p@) =~= strings_view(values@));
    let sep_chars = chars_of(sep);
    join_chars(&parts, sep_chars.as_slice())
}

fn args_suffix_of(args: &Vec<String>) -> (r: Vec<char>)
    ensures
        r@ == args_suffix(strings_view(args@)),
{
    let mut r: Vec<char> = Vec::new();
    if args.len() == 0 {
        assert(r@ =~= args_suffix(strings_view(args@)));
        return r;
    }
    let mut parts: Vec<Vec<char>> = Vec::new();
    let mut i: usize = 0;
    while i < args.len()
        invariant
            i <= args.len(),
            parts.len() == i,
            forall|j: int| 0 <= j < i ==> (#[trigger] parts@[j])@ == "*"@ + args@[j]@ + "*"@,
        decreases args.len() - i,
    {
        let mut p: Vec<char> = Vec::new();
        push_text(&mut p, "*");
        push_text(&mut p, args[i].as_str());
        push_text(&mut p, "*");
        assert(p@ =~= "*"@ + args@[i as int]@ + "*"@);
        parts.push(p);
        i += 1;
    }
    assert(parts@.map_values(|p: Vec<char>| p@) =~= emphasized(strings_view(args@)));
    let sep = chars_of(", ");
    let j = join_chars(&parts, sep.as_slice());
    push_text(&mut r, " (");
    extend_chars(&mut r, j.as_slice());
    push_text(&mut r, ")");
    r
}

fn keyword_hover_md_of(k: &KeywordDocModel) -> (r: String)
    ensures
        r@ == keyword_hover_md(*k),
{
    let mut out: Vec<char> = Vec::new();
    push_text(&mut out, "**");
    push_text(&mut out, k.name.as_str());
    push_text(&mut out, "**");
    let suffix = args_suffix_of(&k.args);
    extend_chars(&mut out, suffix.as_slice());
    push_text(&mut out, "\n");
    let ghost head = out@;
    match &k.library_name {
        Some(l) => {
            push_text(&mut out, "\n*Library: ");
            push_text(&mut out, l.as_str());
            push_text(&mut out, "*\n");
        },
        None => {},
    }
    let ghost with_lib = out@;
    if chars_of(k.doc.as_str()).len() > 0 {
        push_text(&mut out, "\n---\n\n");
        push_text(&mut out, k.doc.as_str());
    }
    let ghost with_doc = out@;
    match &k.deprecated {
        Some(d) => {
            push_text(&mut out, "\n\n> ⚠️ **Deprecated**: ");
            push_text(&mut out, d.as_str());
        },
        None => {},
    }
    assert(out@ =~= keyword_hover_md(*k));
    string_of(&out)
}

fn first_documentation(items: &Vec<BodyItemModel>) -> (r: Option<&String>)
    ensures
        match body_documentation(items@) {
            Some(d) => r matches Some(s) && s@ == d,
            None => r is None,
        },
{
    let mut res: Option<&String> = None;
    let mut i: usize = 0;
    while i < items.len()
        invariant
            i <= items.len(),
            match body_documentation(items@.take(i as int)) {
                Some(d) => res matches Some(s) && s@ == d,
                None => res is None,
            },
        decreases items.len() - i,
    {
        assert(items@.take(i + 1).drop_last() == items@.take(i as int));
        assert(items@.take(i + 1).last() == items@[i as int]);
        if res.is_none() {
            if let BodyItemModel::Documentation { value, .. } = &items[i] {
                res = Some(value);
            }
        }
        i += 1;
    }
    assert(items@.take(items.len() as int) == items@);
    res
}

fn local_keyword_md_of(b: &BlockModel) -> (r: String)
    ensures
        r@ == local_keyword_md(*b),
{
    let mut out: Vec<char> = Vec::new();
    push_text(&mut out, "**");
    push_text(&mut out, b.name.as_str());
    push_text(&mut out, "**");
    match first_arguments(&b.body) {
        Some(a) => {
            let suffix = args_suffix_of(a);
            extend_chars(&mut out, suffix.as_slice());
        },
        None => {
            assert(body_arguments(b.body@) =~= Seq::<Seq<char>>::empty());
        },
    }
    let ghost head = out@;
    match first_documentation(&b.body) {
        Some(d) => {
            if chars_of(d.as_str()).len() > 0 {
                push_text(&mut out, "\n\n---\n\n");
                push_text(&mut out, d.as_str());
            }
        },
        None => {},
    }
    assert(out@ =~= local_keyword_md(*b));
    string_of(&out)
}

fn clone_strings(v: &Vec<String>) -> (r: Vec<String>)
    ensures
        strings_view(r@) == strings_view(v@),
{
    let mut r: Vec<String> = Vec::new();
    let mut i: usize = 0;
    while i < v.len()
        invariant
            i <= v.len(),
            r.len() == i,
            forall|j: int| 0 <= j < i ==> (#[trigger] r@[j])@ == v@[j]@,
        decreases v.len() - i,
    {
        r.push(v[i].clone());
        i += 1;
    }
    assert(strings_view(r@) =~= strings_view(v@));
    r
}

fn find_variable(ss: &Vec<SectionModel>, norm: &String) -> (r: Option<(String, Vec<String>)>)
    ensures
        match variable_def(ss@, norm@) {
            Some((n, vs)) => r matches Some(x) && x.0@ == n && strings_view(x.1@) == vs,
            None => r is None,
        },
{
    let mut res: Option<(String, Vec<String>)> = None;
    let mut k: usize = 0;
    while k < ss.len()
        invariant
            k <= ss.len(),
            match variable_def(ss@.take(k as int), norm@) {
                Some((n, vs)) => res matches Some(x) && x.0@ == n && strings_view(x.1@) == vs,
                None => res is None,
            },
        decreases ss.len() - k,
    {
        assert(ss@.take(k + 1).drop_last() == ss@.take(k as int));
        assert(ss@.take(k + 1).last() == ss@[k as int]);
        if res.is_none() {
            if let SectionModel::Variables { body, .. } = &ss[k] {
                let mut j: usize = 0;
                while j < body.len()
                    invariant
                        j <= body.len(),
                        res is None ==> variable_def_in(body@.take(j as int), norm@) is None,
                        match variable_def_in(body@.take(j as int), norm@) {
                            Some((n, vs)) => res matches Some(x) && x.0@ == n && strings_view(x.1@) == vs,
                            None => res is None,
                        },
                    decreases body.len() - j,
                {
                    assert(body@.take(j + 1).drop_last() == body@.take(j as int));
                    assert(body@.take(j + 1).last() == body@[j as int]);
                    if res.is_none() {
                        if let VariableItemModel::Variable { name, value, .. } = &body[j] {
                            let n = normalize_var_name(name.as_str());
                            if str_eq(n.as_str(), norm.as_str()) {
                                res = Some((name.clone(), clone_strings(value)));
                            }
                        }
                    }
                    j += 1;
                }
                assert(body@.take(body.len() as int) == body@);
            }
        }
        k += 1;
    }
    assert(ss@.take(ss.len() as int) == ss@);
    res
}

fn variable_md_of(name: &String, values: &Vec<String>) -> (r: String)
    ensures
        r@ == variable_md(name@, strings_view(values@)),
{
    let mut out: Vec<char> = Vec::new();
    push_text(&mut out, "**");
    push_text(&mut out, name.as_str());
    push_text(&mut out, "** = `");
    let ghost head = out@;
    if values.len() == 0 {
        push_text(&mut out, "(no value)");
    } else {
        let j = join_strings(values, "    ");
        extend_chars(&mut out, j.as_slice());
    }
    push_text(&mut out, "`\n\n*Suite variable*");
    assert(out@ =~= variable_md(name@, strings_view(values@)));
    string_of(&out)
}

/// What hovering `pos` in `file` shows, given what the namespace knows of
/// the keyword called there (`ns_doc`, looked up by the name that
/// `token_under` gives with the hover lookup): Markdown documentation of a
/// called keyword or of a referenced variable; nothing elsewhere.
pub fn hover(file: &FileModel, ns_doc: &Option<KeywordDocModel>, pos: Position) -> (r: Option<Hover>)
    ensures
        match hover_spec(file.sections@, *ns_doc, pos) {
            Some(md) => r matches Some(h) && h.contents.kind == MarkupKind::Markdown && h.contents.value@ == md
                && h.range is None,
            None => r is None,
        },
{
    let lk = Lookup { variables: true, strict: false, definitions: false };
    let md: Option<String> = match token_under(file, pos, lk) {
        Some((true, name)) => match ns_doc {
            Some(k) => Some(keyword_hover_md_of(k)),
            None => match find_named(&file.sections, name.as_str()) {
                Some(b) => Some(local_keyword_md_of(b)),
                None => None,
            },
        },
        Some((false, norm)) => match find_variable(&file.sections, &norm) {
            Some((n, vs)) => Some(variable_md_of(&n, &vs)),
            None => None,
        },
        None => None,
    };
    match md {
        Some(v) => Some(Hover { contents: MarkupContent { kind: MarkupKind::Markdown, value: v }, range: None }),
        None => None,
    }
}

} // verus!
