//! Semantic tokens: collection, ordering and the protocol's delta encoding.
//!
//! Token types (indices into the legend): 0 namespace (section headers),
//! 1 function (keyword calls and definitions), 2 variable, 3 keyword
//! (setting names), 4 comment, 5 string (documentation).  Modifier bits:
//! 0 definition, 1 deprecated.
use vstd::prelude::*;

use crate::lsp_items::{SemanticToken, SemanticTokens, SemanticTokensLegend};

verus! {

/// Token type of comments.
pub const TT_COMMENT: u32 = 4;

/// A token at an absolute position, before delta encoding.
#[derive(Clone, Copy, Debug, PartialEq, Eq, Structural)]
pub struct RawToken {
    pub line: u32,
    pub start_char: u32,
    pub length: u32,
    pub token_type: u32,
    pub token_modifiers: u32,
}

/// Append a token unless it is empty.
pub fn push(out: &mut Vec<RawToken>, line: u32, start_char: u32, length: u32, token_type: u32, token_modifiers: u32)
    ensures
        final(out)@ == if length == 0 {
            old(out)@
        } else {
            old(out)@.push(RawToken { line, start_char, length, token_type, token_modifiers })
        },
{
    if length == 0 {
        return;
    }
    out.push(RawToken { line, start_char, length, token_type, token_modifiers });
}

/// Append a comment token covering `value` (its length in bytes, as the
/// protocol's length is taken here).
pub fn push_comment(out: &mut Vec<RawToken>, value: &str, line: u32, col: u32)
    ensures
        final(out)@ == if value.len() as u32 == 0 {
            old(out)@
        } else {
            old(out)@.push(
                RawToken {
                    line,
                    start_char: col,
                    length: value.len() as u32,
                    token_type: TT_COMMENT,
                    token_modifiers: 0,
                },
            )
        },
{
    push(out, line, col, value.len() as u32, TT_COMMENT, 0);
}

/// Document order of token starts: by line, then by column.
pub open spec fn key_le(a: RawToken, b: RawToken) -> bool {
    a.line < b.line || (a.line == b.line && a.start_char <= b.start_char)
}

pub open spec fn is_sorted(s: Seq<RawToken>) -> bool {
    forall|i: int, j: int| 0 <= i < j < s.len() ==> key_le(s[i], s[j])
}

/// How many leading tokens of `s` start at or before `t`.
pub open spec fn upper_bound(s: Seq<RawToken>, t: RawToken) -> nat
    decreases s.len(),
{
    if s.len() > 0 && key_le(s[0], t) {
        1 + upper_bound(s.drop_first(), t)
    } else {
        0
    }
}

/// `t` inserted into `s` after every token that starts at or before it.
pub open spec fn insert_after_equals(s: Seq<RawToken>, t: RawToken) -> Seq<RawToken> {
    let k = upper_bound(s, t) as int;
    s.take(k).push(t) + s.skip(k)
}

/// The tokens ordered by start position; tokens that start at the same place
/// keep the order they came in (a stable sort).
pub open spec fn stable_sort(s: Seq<RawToken>) -> Seq<RawToken>
    decreases s.len(),
{
    if s.len() == 0 {
        s
    } else {
        insert_after_equals(stable_sort(s.drop_last()), s.last())
    }
}

proof fn lemma_upper_bound(s: Seq<RawToken>, t: RawToken)
    requires
        is_sorted(s),
    ensures
        upper_bound(s, t) <= s.len(),
        forall|i: int| 0 <= i < upper_bound(s, t) ==> key_le(#[trigger] s[i], t),
        forall|i: int| upper_bound(s, t) <= i < s.len() ==> !key_le(#[trigger] s[i], t),
    decreases s.len(),
{
    if s.len() > 0 {
        let d = s.drop_first();
        assert forall|i: int, j: int| 0 <= i < j < d.len() implies key_le(d[i], d[j]) by {
            assert(d[i] == s[i + 1] && d[j] == s[j + 1]);
        }
        lemma_upper_bound(d, t);
        if key_le(s[0], t) {
            assert forall|i: int| 0 <= i < upper_bound(s, t) implies key_le(#[trigger] s[i], t) by {
                if i > 0 {
                    assert(s[i] == d[i - 1]);
                }
            }
            assert forall|i: int| upper_bound(s, t) <= i < s.len() implies !key_le(#[trigger] s[i], t) by {
                assert(s[i] == d[i - 1]);
            }
        } else {
            assert forall|i: int| 0 <= i < s.len() implies !key_le(#[trigger] s[i], t) by {
                if i > 0 {
                    assert(key_le(s[0], s[i]));
                }
            }
        }
    }
}

proof fn lemma_insert_sorted(s: Seq<RawToken>, t: RawToken)
    requires
        is_sorted(s),
    ensures
        is_sorted(insert_after_equals(s, t)),
        insert_after_equals(s, t).len() == s.len() + 1,
{
    lemma_upper_bound(s, t);
    let k = upper_bound(s, t) as int;
    let r = insert_after_equals(s, t);
    assert forall|i: int, j: int| 0 <= i < j < r.len() implies key_le(r[i], r[j]) by {
        if j < k {
            assert(r[i] == s[i] && r[j] == s[j]);
        } else if j == k {
            assert(r[j] == t);
            assert(r[i] == s[i]);
        } else if i == k {
            assert(r[i] == t);
            assert(r[j] == s[j - 1]);
        } else if i < k {
            assert(r[i] == s[i] && r[j] == s[j - 1]);
        } else {
            assert(r[i] == s[i - 1] && r[j] == s[j - 1]);
        }
    }
}

proof fn lemma_stable_sort_sorted(s: Seq<RawToken>)
    ensures
        is_sorted(stable_sort(s)),
        stable_sort(s).len() == s.len(),
    decreases s.len(),
{
    if s.len() > 0 {
        lemma_stable_sort_sorted(s.drop_last());
        lemma_insert_sorted(stable_sort(s.drop_last()), s.last());
    }
}

/// Insert `t` after every token of the sorted `v` that starts at or before it.
fn insert_token(v: &mut Vec<RawToken>, t: RawToken)
    requires
        is_sorted(old(v)@),
    ensures
        final(v)@ == insert_after_equals(old(v)@, t),
{
    let ghost s = v@;
    let mut j: usize = 0;
    assert(s.skip(0) == s);
    while j < v.len() && (v[j].line < t.line || (v[j].line == t.line && v[j].start_char
        <= t.start_char))
        invariant
            v@ == s,
            j <= s.len(),
            upper_bound(s, t) == j + upper_bound(s.skip(j as int), t),
        decreases s.len() - j,
    {
        assert(s.skip(j as int).drop_first() == s.skip(j + 1));
        j += 1;
    }
    assert(upper_bound(s.skip(j as int), t) == 0);
    v.insert(j, t);
    assert(v@ =~= s.take(j as int).push(t) + s.skip(j as int));
}

/// The tokens in document order, keeping the given order among tokens that
/// start at the same place.
pub fn sort_tokens(raw: &Vec<RawToken>) -> (r: Vec<RawToken>)
    ensures
        r@ == stable_sort(raw@),
        is_sorted(r@),
{
    let mut r: Vec<RawToken> = Vec::new();
    for i in 0..raw.len()
        invariant
            r@ == stable_sort(raw@.take(i as int)),
    {
        proof {
            lemma_stable_sort_sorted(raw@.take(i as int));
        }
        let ghost before = raw@.take(i as int);
        assert(raw@.take(i + 1).drop_last() == before);
        insert_token(&mut r, raw[i]);
    }
    assert(raw@.take(raw.len() as int) == raw@);
    proof {
        lemma_stable_sort_sorted(raw@);
    }
    r
}

/// The delta encoding of sorted tokens: each token's line relative to the
/// previous token's, and its column relative to the previous token's when
/// both are on one line.
pub open spec fn encode_spec(s: Seq<RawToken>) -> Seq<SemanticToken> {
    Seq::new(
        s.len(),
        |i: int|
            {
                let prev_line: u32 = if i == 0 {
                    0
                } else {
                    s[i - 1].line
                };
                let prev_char: u32 = if i == 0 {
                    0
                } else {
                    s[i - 1].start_char
                };
                let delta_line = (s[i].line - prev_line) as u32;
                SemanticToken {
                    delta_line,
                    delta_start: if delta_line == 0 {
                        (s[i].start_char - prev_char) as u32
                    } else {
                        s[i].start_char
                    },
                    length: s[i].length,
                    token_type: s[i].token_type,
                    token_modifiers_bitset: s[i].token_modifiers,
                }
            },
    )
}

/// Delta-encode tokens already in document order.
pub fn encode_tokens(raw: &Vec<RawToken>) -> (data: Vec<SemanticToken>)
    requires
        is_sorted(raw@),
    ensures
        data@ == encode_spec(raw@),
{
    let mut data: Vec<SemanticToken> = Vec::new();
    let mut prev_line: u32 = 0;
    let mut prev_char: u32 = 0;
    for i in 0..raw.len()
        invariant
            is_sorted(raw@),
            data@ == encode_spec(raw@).take(i as int),
            i == 0 ==> prev_line == 0 && prev_char == 0,
            i > 0 ==> prev_line == raw@[i - 1].line && prev_char == raw@[i - 1].start_char,
    {
        let tok = raw[i];
        if i > 0 {
            assert(key_le(raw@[i - 1], raw@[i as int]));
        }
        let delta_line = tok.line - prev_line;
        let delta_start = if delta_line == 0 {
            tok.start_char - prev_char
        } else {
            tok.start_char
        };
        data.push(
            SemanticToken {
                delta_line,
                delta_start,
                length: tok.length,
                token_type: tok.token_type,
                token_modifiers_bitset: tok.token_modifiers,
            },
        );
        assert(data@ =~= encode_spec(raw@).take(i + 1));
        prev_line = tok.line;
        prev_char = tok.start_char;
    }
    assert(encode_spec(raw@).take(raw.len() as int) =~= encode_spec(raw@));
    data
}

/// The semantic tokens of a document from its collected tokens: ordered by
/// position, then delta-encoded.
pub fn encode_semantic_tokens(raw: &Vec<RawToken>) -> (t: SemanticTokens)
    ensures
        t.result_id is None,
        is_sorted(stable_sort(raw@)),
        t.data@ == encode_spec(stable_sort(raw@)),
{
    let sorted = sort_tokens(raw);
    let data = encode_tokens(&sorted);
    SemanticTokens { result_id: None, data }
}

/// The absolute position of token `i` of a delta-encoded stream, read from
/// the start of the stream at line 0, column 0.
pub open spec fn decoded_position(data: Seq<SemanticToken>, i: int) -> (int, int)
    decreases i + 1,
{
    if i < 0 {
        (0, 0)
    } else {
        let (l, c) = decoded_position(data, i - 1);
        if data[i].delta_line > 0 {
            (l + data[i].delta_line, data[i].delta_start as int)
        } else {
            (l, c + data[i].delta_start)
        }
    }
}

/// Decoding the delta stream gives back every token's absolute position.
pub proof fn lemma_decode_encode(s: Seq<RawToken>, i: int)
    requires
        is_sorted(s),
        0 <= i < s.len(),
    ensures
        decoded_position(encode_spec(s), i) == (s[i].line as int, s[i].start_char as int),
    decreases i,
{
    let e = encode_spec(s)[i];
    if i > 0 {
        lemma_decode_encode(s, i - 1);
        assert(key_le(s[i - 1], s[i]));
        assert(e.delta_line == s[i].line - s[i - 1].line);
        if e.delta_line == 0 {
            assert(e.delta_start == s[i].start_char - s[i - 1].start_char);
        } else {
            assert(e.delta_start == s[i].start_char);
        }
    } else {
        assert(e.delta_line == s[0].line);
        assert(e.delta_start == s[0].start_char);
        assert(decoded_position(encode_spec(s), -1) == (0int, 0int));
    }
}

/// The legend advertised with the server's capabilities.
pub fn legend() -> (l: SemanticTokensLegend)
    ensures
        l.token_types@.len() == 6,
        l.token_types@[0]@ == "namespace"@,
        l.token_types@[1]@ == "function"@,
        l.token_types@[2]@ == "variable"@,
        l.token_types@[3]@ == "keyword"@,
        l.token_types@[4]@ == "comment"@,
        l.token_types@[5]@ == "string"@,
        l.token_modifiers@.len() == 2,
        l.token_modifiers@[0]@ == "definition"@,
        l.token_modifiers@[1]@ == "deprecated"@,
{
    SemanticTokensLegend {
        token_types: vec![
            "namespace".to_owned(),
            "function".to_owned(),
            "variable".to_owned(),
            "keyword".to_owned(),
            "comment".to_owned(),
            "string".to_owned(),
        ],
        token_modifiers: vec!["definition".to_owned(), "deprecated".to_owned()],
    }
}

} // verus!
