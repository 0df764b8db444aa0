//! Conversions between `snake_case` and `camelCase` field names.
use vstd::prelude::*;

use crate::text::{
    ascii_lower, ascii_upper, char_is_uppercase, char_to_lower, char_to_upper, chars_of,
    extend_chars, is_ascii_char, is_ascii_lower, is_ascii_upper, is_upper_of, lower_of,
    string_of, upper_of,
};

verus! {

/// A char that separates words in a `snake_case`, `kebab-case` or dotted name.
pub open spec fn is_word_delim(c: char) -> bool {
    c == '_' || c == '-' || c == '.'
}

/// `camelCase` of `s`: delimiters dropped, the char after a delimiter
/// upper-cased, the very first char lower-cased, every other char kept.
/// `first` marks the first char of the whole input, `cap` a pending
/// capitalization.
pub open spec fn camel_rec(s: Seq<char>, first: bool, cap: bool) -> Seq<char>
    decreases s.len(),
{
    if s.len() == 0 {
        Seq::empty()
    } else {
        let c = s[0];
        let rest = s.drop_first();
        if is_word_delim(c) {
            camel_rec(rest, false, true)
        } else if cap {
            upper_of(c) + camel_rec(rest, false, false)
        } else if first {
            lower_of(c) + camel_rec(rest, false, false)
        } else {
            seq![c] + camel_rec(rest, false, false)
        }
    }
}

/// `camelCase` of `s`.
pub open spec fn camel_case(s: Seq<char>) -> Seq<char> {
    camel_rec(s, true, false)
}

/// `snake_case` of `s`: each upper-case char lower-cased and, except at the
/// very start, preceded by `_`; `-` and `.` become `_`.
pub open spec fn snake_rec(s: Seq<char>, first: bool) -> Seq<char>
    decreases s.len(),
{
    if s.len() == 0 {
        Seq::empty()
    } else {
        let c = s[0];
        let rest = s.drop_first();
        if is_upper_of(c) {
            (if first {
                Seq::empty()
            } else {
                seq!['_']
            }) + lower_of(c) + snake_rec(rest, false)
        } else if c == '-' || c == '.' {
            seq!['_'] + snake_rec(rest, false)
        } else {
            seq![c] + snake_rec(rest, false)
        }
    }
}

/// `snake_case` of `s`.
pub open spec fn snake_case(s: Seq<char>) -> Seq<char> {
    snake_rec(s, true)
}

/// Convert a `snake_case` string to `camelCase`.
pub fn to_camel_case(s: &str) -> (r: String)
    ensures
        r@ == camel_case(s@),
{
    let cs = chars_of(s);
    let mut out: Vec<char> = Vec::new();
    let mut cap = false;
    let mut i: usize = 0;
    assert(cs@.skip(0) == cs@);
    while i < cs.len()
        invariant
            i <= cs.len(),
            out@ + camel_rec(cs@.skip(i as int), i == 0, cap) == camel_case(cs@),
        decreases cs.len() - i,
    {
        let ghost before = out@;
        let ghost t = cs@.skip(i as int);
        let ghost first = i == 0;
        let ghost cap0 = cap;
        let ch = cs[i];
        assert(t[0] == ch);
        assert(t.drop_first() == cs@.skip(i + 1));
        if ch == '_' || ch == '-' || ch == '.' {
            cap = true;
        } else if cap {
            let u = char_to_upper(ch);
            extend_chars(&mut out, &u);
            cap = false;
        } else if i == 0 {
            let l = char_to_lower(ch);
            extend_chars(&mut out, &l);
        } else {
            out.push(ch);
            assert(out@ == before + seq![ch]);
        }
        assert(before + camel_rec(t, first, cap0) == out@ + camel_rec(
            cs@.skip(i + 1),
            false,
            cap,
        ));
        i += 1;
    }
    assert(cs@.skip(cs.len() as int).len() == 0);
    assert(out@ + Seq::<char>::empty() == out@);
    string_of(&out)
}

/// Convert a `camelCase` or `PascalCase` string to `snake_case`.
pub fn to_snake_case(s: &str) -> (r: String)
    ensures
        r@ == snake_case(s@),
{
    let cs = chars_of(s);
    let mut out: Vec<char> = Vec::new();
    let mut i: usize = 0;
    assert(cs@.skip(0) == cs@);
    while i < cs.len()
        invariant
            i <= cs.len(),
            out@ + snake_rec(cs@.skip(i as int), i == 0) == snake_case(cs@),
        decreases cs.len() - i,
    {
        let ghost before = out@;
        let ghost t = cs@.skip(i as int);
        let ghost first = i == 0;
        let ch = cs[i];
        assert(t[0] == ch);
        assert(t.drop_first() == cs@.skip(i + 1));
        if char_is_uppercase(ch) {
            if i > 0 {
                out.push('_');
            }
            let l = char_to_lower(ch);
            extend_chars(&mut out, &l);
            assert(out@ == before + (if first {
                Seq::<char>::empty()
            } else {
                seq!['_']
            }) + lower_of(ch));
        } else if ch == '-' || ch == '.' {
            out.push('_');
            assert(out@ == before + seq!['_']);
        } else {
            out.push(ch);
            assert(out@ == before + seq![ch]);
        }
        assert(before + snake_rec(t, first) == out@ + snake_rec(cs@.skip(i + 1), false));
        i += 1;
    }
    assert(cs@.skip(cs.len() as int).len() == 0);
    assert(out@ + Seq::<char>::empty() == out@);
    string_of(&out)
}

/// A lower-case `snake_case` identifier: it holds only lower-case ASCII
/// letters, digits and `_`, does not start with `_`, and every `_` is
/// followed by a lower-case letter.  The empty string is one.
pub open spec fn is_lower_snake(s: Seq<char>) -> bool {
    s.len() == 0 || (s[0] != '_' && is_snake_tail(s))
}

/// Every char is a lower-case ASCII letter, a digit or `_`, and every `_`
/// is followed by a lower-case ASCII letter.
pub open spec fn is_snake_tail(s: Seq<char>) -> bool {
    forall|i: int|
        0 <= i < s.len() ==> {
            ||| is_ascii_lower(#[trigger] s[i])
            ||| ('0' <= s[i] && s[i] <= '9')
            ||| (s[i] == '_' && i + 1 < s.len() && is_ascii_lower(s[i + 1]))
        }
}

/// Converting a lower-case `snake_case` identifier to `camelCase` and back
/// gives the identifier again.
pub proof fn lemma_snake_camel_roundtrip(s: Seq<char>)
    requires
        is_lower_snake(s),
    ensures
        snake_case(camel_case(s)) == s,
{
    if s.len() == 0 {
        assert(camel_case(s) =~= Seq::<char>::empty());
    } else {
        let c = s[0];
        let rest = s.drop_first();
        assert(is_ascii_char(c));
        let tail = camel_rec(rest, false, false);
        assert(camel_case(s) == seq![c] + tail);
        assert forall|i: int| 0 <= i < rest.len() implies {
            ||| is_ascii_lower(#[trigger] rest[i])
            ||| ('0' <= rest[i] && rest[i] <= '9')
            ||| (rest[i] == '_' && i + 1 < rest.len() && is_ascii_lower(rest[i + 1]))
        } by {
            assert(rest[i] == s[i + 1]);
        }
        lemma_snake_camel_tail(rest);
        assert((seq![c] + tail)[0] == c);
        assert((seq![c] + tail).drop_first() == tail);
        assert(snake_case(seq![c] + tail) == seq![c] + snake_rec(tail, false));
        assert(seq![c] + rest == s);
    }
}

proof fn lemma_snake_camel_tail(t: Seq<char>)
    requires
        is_snake_tail(t),
    ensures
        snake_rec(camel_rec(t, false, false), false) == t,
    decreases t.len(),
{
    if t.len() > 0 {
        let c = t[0];
        let rest = t.drop_first();
        assert forall|i: int| 0 <= i < rest.len() implies {
            ||| is_ascii_lower(#[trigger] rest[i])
            ||| ('0' <= rest[i] && rest[i] <= '9')
            ||| (rest[i] == '_' && i + 1 < rest.len() && is_ascii_lower(rest[i + 1]))
        } by {
            assert(rest[i] == t[i + 1]);
        }
        if c == '_' {
            let d = t[1];
            let rest2 = rest.drop_first();
            assert(rest[0] == d);
            assert forall|i: int| 0 <= i < rest2.len() implies {
                ||| is_ascii_lower(#[trigger] rest2[i])
                ||| ('0' <= rest2[i] && rest2[i] <= '9')
                ||| (rest2[i] == '_' && i + 1 < rest2.len() && is_ascii_lower(rest2[i + 1]))
            } by {
                assert(rest2[i] == t[i + 2]);
            }
            lemma_snake_camel_tail(rest2);
            let u = ascii_upper(d);
            assert(is_ascii_char(d));
            assert(upper_of(d) == seq![u]);
            assert(is_ascii_upper(u));
            assert(is_ascii_char(u));
            assert(ascii_lower(u) == d);
            let tail = camel_rec(rest2, false, false);
            assert(camel_rec(t, false, false) == camel_rec(rest, false, true));
            assert(camel_rec(rest, false, true) == seq![u] + tail);
            assert((seq![u] + tail)[0] == u);
            assert((seq![u] + tail).drop_first() == tail);
            assert(is_upper_of(u));
            assert(lower_of(u) == seq![d]);
            assert(snake_rec(seq![u] + tail, false) == seq!['_'] + seq![d] + snake_rec(tail, false));
            assert(seq!['_'] + seq![d] + rest2 == t);
        } else {
            assert(is_ascii_char(c));
            assert(!is_ascii_upper(c));
            let tail = camel_rec(rest, false, false);
            lemma_snake_camel_tail(rest);
            assert(camel_rec(t, false, false) == seq![c] + tail);
            assert((seq![c] + tail)[0] == c);
            assert((seq![c] + tail).drop_first() == tail);
            assert(!is_upper_of(c));
            assert(snake_rec(seq![c] + tail, false) == seq![c] + snake_rec(tail, false));
            assert(seq![c] + rest == t);
        }
    }
}

} // verus!
