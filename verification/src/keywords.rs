//! Keyword and variable name helpers used by the editor features: edit
//! distance for "did you mean" suggestions, variable name normalization,
//! signature labels and keyword names quoted in diagnostics.
use vstd::prelude::*;

use crate::text::{chars_of, extend_chars, join, lowercase_chars, str_lower_of, string_of, sub_chars};

verus! {

// ── Edit distance ────────────────────────────────────────────────────────────

pub open spec fn min3(a: nat, b: nat, c: nat) -> nat {
    if a <= b && a <= c {
        a
    } else if b <= c {
        b
    } else {
        c
    }
}

/// The Levenshtein distance between `a` and `b`: the least number of single
/// char insertions, deletions and substitutions that turn `a` into `b`.
pub open spec fn lev(a: Seq<char>, b: Seq<char>) -> nat
    decreases a.len() + b.len(),
{
    if a.len() == 0 {
        b.len()
    } else if b.len() == 0 {
        a.len()
    } else if a.last() == b.last() {
        lev(a.drop_last(), b.drop_last())
    } else {
        1 + min3(lev(a.drop_last(), b), lev(a, b.drop_last()), lev(a.drop_last(), b.drop_last()))
    }
}

pub open spec fn max_nat(a: nat, b: nat) -> nat {
    if a >= b {
        a
    } else {
        b
    }
}

/// The distance never exceeds the length of the longer string.
pub proof fn lemma_lev_upper(a: Seq<char>, b: Seq<char>)
    ensures
        lev(a, b) <= max_nat(a.len(), b.len()),
    decreases a.len() + b.len(),
{
    if a.len() > 0 && b.len() > 0 {
        lemma_lev_upper(a.drop_last(), b.drop_last());
    }
}

/// Simple Levenshtein distance between two strings, counted in chars.
pub fn levenshtein(a: &str, b: &str) -> (d: usize)
    ensures
        d == lev(a@, b@),
{
    let a = chars_of(a);
    let b = chars_of(b);
    let m = a.len();
    let n = b.len();
    let mut prev: Vec<usize> = Vec::new();
    prev.push(0);
    for j in 0..n
        invariant
            n == b.len(),
            prev.len() == j + 1,
            forall|k: int| 0 <= k <= j ==> prev@[k] == lev(a@.take(0), b@.take(k)),
    {
        prev.push(j + 1);
    }
    for ii in 0..m
        invariant
            m == a.len(),
            n == b.len(),
            prev.len() == n + 1,
            forall|k: int| 0 <= k <= n ==> prev@[k] == lev(a@.take(ii as int), b@.take(k)),
    {
        let i = ii + 1;
        let mut cur: Vec<usize> = Vec::new();
        cur.push(i);
        for jj in 0..n
            invariant
                i == ii + 1,
                ii < m,
                m == a.len(),
                n == b.len(),
                prev.len() == n + 1,
                cur.len() == jj + 1,
                forall|k: int| 0 <= k <= n ==> prev@[k] == lev(a@.take(i - 1), b@.take(k)),
                forall|k: int| 0 <= k <= jj ==> cur@[k] == lev(a@.take(i as int), b@.take(k)),
        {
            let j = jj + 1;
            let ghost x = a@.take(i as int);
            let ghost y = b@.take(j as int);
            assert(x.drop_last() == a@.take(i - 1));
            assert(y.drop_last() == b@.take(j - 1));
            assert(x.last() == a@[i - 1]);
            assert(y.last() == b@[j - 1]);
            proof {
                lemma_lev_upper(a@.take(i - 1), b@.take(j - 1));
            }
            let v = if a[i - 1] == b[j - 1] {
                prev[j - 1]
            } else {
                let up = prev[j];
                let left = cur[j - 1];
                let diag = prev[j - 1];
                let mut best = up;
                if left < best {
                    best = left;
                }
                if diag < best {
                    best = diag;
                }
                assert(best <= diag);
                1 + best
            };
            cur.push(v);
        }
        prev = cur;
    }
    assert(a@.take(m as int) == a@);
    assert(b@.take(n as int) == b@);
    prev[n]
}

/// The distance is symmetric.
pub proof fn lemma_lev_symmetric(a: Seq<char>, b: Seq<char>)
    ensures
        lev(a, b) == lev(b, a),
    decreases a.len() + b.len(),
{
    if a.len() > 0 && b.len() > 0 {
        lemma_lev_symmetric(a.drop_last(), b.drop_last());
        lemma_lev_symmetric(a.drop_last(), b);
        lemma_lev_symmetric(a, b.drop_last());
    }
}

/// A string is at distance zero from itself, and only from itself.
pub proof fn lemma_lev_zero(a: Seq<char>, b: Seq<char>)
    ensures
        lev(a, a) == 0,
        lev(a, b) == 0 <==> a == b,
    decreases a.len() + b.len(),
{
    lemma_lev_self(a);
    if a.len() > 0 && b.len() > 0 {
        lemma_lev_zero(a.drop_last(), b.drop_last());
        if a.last() == b.last() && a.drop_last() == b.drop_last() {
            assert(a == a.drop_last().push(a.last()));
            assert(b == b.drop_last().push(b.last()));
        }
        if a == b {
            assert(a.drop_last() == b.drop_last());
        }
    } else if a.len() == 0 && b.len() == 0 {
        assert(a == b);
    }
}

proof fn lemma_lev_self(a: Seq<char>)
    ensures
        lev(a, a) == 0,
    decreases a.len(),
{
    if a.len() > 0 {
        lemma_lev_self(a.drop_last());
    }
}

/// The distance is at least the difference of the lengths.
pub proof fn lemma_lev_lower(a: Seq<char>, b: Seq<char>)
    ensures
        lev(a, b) >= a.len() - b.len(),
        lev(a, b) >= b.len() - a.len(),
    decreases a.len() + b.len(),
{
    if a.len() > 0 && b.len() > 0 {
        lemma_lev_lower(a.drop_last(), b.drop_last());
        lemma_lev_lower(a.drop_last(), b);
        lemma_lev_lower(a, b.drop_last());
    }
}

/// Dropping the last char of the second string changes the distance by at
/// most one upward: `lev(s, t) <= lev(s, t') + 1`.
proof fn lemma_lev_drop_right_up(s: Seq<char>, t: Seq<char>)
    requires
        t.len() > 0,
    ensures
        lev(s, t) <= lev(s, t.drop_last()) + 1,
    decreases s.len() + t.len(),
{
    if s.len() > 0 && s.last() == t.last() {
        lemma_lev_drop_left_down(s, t.drop_last());
    }
}

/// Dropping the last char of the first string lowers the distance by at
/// most one: `lev(s', t) <= lev(s, t) + 1`.
proof fn lemma_lev_drop_left_down(s: Seq<char>, t: Seq<char>)
    requires
        s.len() > 0,
    ensures
        lev(s.drop_last(), t) <= lev(s, t) + 1,
    decreases s.len() + t.len(),
{
    let s1 = s.drop_last();
    if t.len() == 0 {
    } else if s1.len() == 0 {
        lemma_lev_lower(s, t);
    } else {
        let t1 = t.drop_last();
        lemma_lev_drop_right_up(s1, t);
        if s.last() != t.last() {
            lemma_lev_drop_left_down(s, t1);
        }
    }
}

/// The triangle inequality: going from `a` to `c` by way of `b` never
/// beats going directly.
pub proof fn lemma_lev_triangle(a: Seq<char>, b: Seq<char>, c: Seq<char>)
    ensures
        lev(a, c) <= lev(a, b) + lev(b, c),
    decreases a.len() + b.len() + c.len(),
{
    if b.len() == 0 {
        lemma_lev_upper(a, c);
    } else if a.len() == 0 {
        lemma_lev_lower(b, c);
    } else if c.len() == 0 {
        lemma_lev_lower(a, b);
    } else {
        let a1 = a.drop_last();
        let b1 = b.drop_last();
        let c1 = c.drop_last();
        let (x, y, z) = (a.last(), b.last(), c.last());
        // Going directly: drop from `a`, drop from `c`, or both at once.
        lemma_lev_symmetric(a, c);
        lemma_lev_symmetric(c, a);
        lemma_lev_symmetric(a1, c);
        lemma_lev_drop_right_up(c, a);
        lemma_lev_drop_right_up(a, c);
        assert(lev(a, c) <= lev(a1, c) + 1);
        assert(lev(a, c) <= lev(a, c1) + 1);
        assert(lev(a, c) <= lev(a1, c1) + if x == z { 0int } else { 1int });
        // By way of `b`: the step that gives `lev(a, b)`.
        if x != y && lev(a, b) == 1 + lev(a1, b) {
            lemma_lev_triangle(a1, b, c);
        } else if lev(b, c) != 0 && y != z && lev(b, c) == 1 + lev(b, c1) {
            lemma_lev_triangle(a, b, c1);
        } else if x != y && lev(a, b) == 1 + lev(a, b1) {
            lemma_lev_triangle(a, b1, c);
            lemma_lev_drop_left_down(b, c);
        } else {
            // `lev(a, b)` comes from `lev(a1, b1)`.
            assert(lev(a, b) == lev(a1, b1) + if x == y { 0int } else { 1int });
            if y != z && lev(b, c) == 1 + lev(b1, c) {
                lemma_lev_triangle(a1, b1, c);
            } else {
                assert(lev(b, c) == lev(b1, c1) + if y == z { 0int } else { 1int });
                lemma_lev_triangle(a1, b1, c1);
            }
        }
    }
}

// ── Diagnostic messages ──────────────────────────────────────────────────────

/// Index of the first `c` in `s`, if any.
pub open spec fn first_index(s: Seq<char>, c: char) -> Option<int>
    decreases s.len(),
{
    if s.len() == 0 {
        None
    } else if s[0] == c {
        Some(0)
    } else {
        match first_index(s.drop_first(), c) {
            Some(i) => Some(i + 1),
            None => None,
        }
    }
}

/// Index of the last `c` in `s`, if any.
pub open spec fn last_index(s: Seq<char>, c: char) -> Option<int>
    decreases s.len(),
{
    if s.len() == 0 {
        None
    } else if s.last() == c {
        Some(s.len() - 1)
    } else {
        last_index(s.drop_last(), c)
    }
}

/// The text between the first and the last single quote of `msg`, when
/// they are two different quotes.
pub open spec fn quoted_name(msg: Seq<char>) -> Option<Seq<char>> {
    match (first_index(msg, '\''), last_index(msg, '\'')) {
        (Some(f), Some(l)) => if f == l {
            None
        } else {
            Some(msg.subrange(f + 1, l))
        },
        _ => None,
    }
}

proof fn lemma_first_index(s: Seq<char>, c: char, k: int)
    requires
        0 <= k <= s.len(),
        forall|j: int| 0 <= j < k ==> s[j] != c,
    ensures
        k < s.len() && s[k] == c ==> first_index(s, c) == Some(k),
        k == s.len() ==> first_index(s, c) is None,
    decreases k,
{
    if k > 0 {
        lemma_first_index(s.drop_first(), c, k - 1);
    }
}

proof fn lemma_last_index(s: Seq<char>, c: char, k: int)
    requires
        0 <= k <= s.len(),
        forall|j: int| k <= j < s.len() ==> s[j] != c,
    ensures
        k > 0 && s[k - 1] == c ==> last_index(s, c) == Some(k - 1),
        k == 0 ==> last_index(s, c) is None,
    decreases s.len() - k,
{
    if k < s.len() {
        lemma_last_index(s.drop_last(), c, k);
    }
}

/// The keyword name quoted in a diagnostic message such as
/// `No keyword with name 'Foo Bar' found.`
pub fn extract_keyword_name_from_diagnostic(msg: &str) -> (r: Option<String>)
    ensures
        match (r, quoted_name(msg@)) {
            (Some(name), Some(q)) => name@ == q,
            (None, None) => true,
            _ => false,
        },
{
    let s = chars_of(msg);
    let mut f: usize = 0;
    while f < s.len() && s[f] != '\''
        invariant
            f <= s.len(),
            forall|j: int| 0 <= j < f ==> s@[j] != '\'',
        decreases s.len() - f,
    {
        f += 1;
    }
    proof {
        lemma_first_index(s@, '\'', f as int);
    }
    if f == s.len() {
        return None;
    }
    let mut l: usize = s.len();
    while l > 0 && s[l - 1] != '\''
        invariant
            l <= s.len(),
            forall|j: int| l <= j < s.len() ==> s@[j] != '\'',
        decreases l,
    {
        l -= 1;
    }
    proof {
        lemma_last_index(s@, '\'', l as int);
    }
    if l == 0 {
        return None;
    }
    let last = l - 1;
    if f == last {
        return None;
    }
    let inner = sub_chars(&s, f + 1, last);
    Some(string_of(&inner))
}

// ── Signature labels ─────────────────────────────────────────────────────────

/// The label shown for a keyword signature: the name, then the arguments,
/// each set off by four spaces.
pub open spec fn signature_label(name: Seq<char>, args: Seq<Seq<char>>) -> Seq<char> {
    if args.len() == 0 {
        name
    } else {
        name + seq![' ', ' ', ' ', ' '] + join(args, seq![' ', ' ', ' ', ' '])
    }
}

/// Build the label of a keyword signature.
pub fn format_signature_label(name: &str, args: &[String]) -> (r: String)
    ensures
        r@ == signature_label(name@, args@.map_values(|a: String| a@)),
{
    let ghost as_ = args@.map_values(|a: String| a@);
    let mut out = chars_of(name);
    if args.len() == 0 {
        return string_of(&out);
    }
    let sep = vec![' ', ' ', ' ', ' '];
    let ghost head = out@;
    let mut i: usize = 0;
    while i < args.len()
        invariant
            i <= args.len(),
            sep@ == seq![' ', ' ', ' ', ' '],
            as_ == args@.map_values(|a: String| a@),
            i == 0 ==> out@ == head,
            i > 0 ==> out@ == head + sep@ + join(as_.take(i as int), sep@),
        decreases args.len() - i,
    {
        let ghost before = out@;
        extend_chars(&mut out, &sep);
        let a = chars_of(args[i].as_str());
        extend_chars(&mut out, &a);
        i += 1;
        assert(as_.take(i as int).drop_last() == as_.take(i - 1));
        assert(as_.take(i as int).last() == args@[i - 1]@);
        if i == 1 {
            assert(join(as_.take(1), sep@) == args@[0]@);
        } else {
            assert(out@ =~= head + sep@ + join(as_.take(i as int), sep@));
        }
    }
    assert(as_.take(args.len() as int) == as_);
    string_of(&out)
}

// ── Variable names ───────────────────────────────────────────────────────────

pub open spec fn is_sigil(c: char) -> bool {
    c == '$' || c == '@' || c == '&' || c == '%'
}

pub open spec fn is_brace(c: char) -> bool {
    c == '{' || c == '}'
}

/// `s` without its leading variable sigils.
pub open spec fn strip_sigils(s: Seq<char>) -> Seq<char>
    decreases s.len(),
{
    if s.len() > 0 && is_sigil(s[0]) {
        strip_sigils(s.drop_first())
    } else {
        s
    }
}

/// `s` without braces at either end.
pub open spec fn trim_braces(s: Seq<char>) -> Seq<char> {
    trim_braces_start(trim_braces_end(s))
}

pub open spec fn trim_braces_end(s: Seq<char>) -> Seq<char>
    decreases s.len(),
{
    if s.len() > 0 && is_brace(s.last()) {
        trim_braces_end(s.drop_last())
    } else {
        s
    }
}

pub open spec fn trim_braces_start(s: Seq<char>) -> Seq<char>
    decreases s.len(),
{
    if s.len() > 0 && is_brace(s[0]) {
        trim_braces_start(s.drop_first())
    } else {
        s
    }
}

/// Spaces and hyphens turned into underscores.
pub open spec fn underscored(s: Seq<char>) -> Seq<char> {
    s.map_values(|c: char| if c == ' ' || c == '-' { '_' } else { c })
}

/// The normalized form of a variable name: `${My Var}` becomes `my_var`.
pub open spec fn normalized_var_name(name: Seq<char>) -> Seq<char> {
    underscored(str_lower_of(trim_braces(strip_sigils(name))))
}

/// A variable name without its sigils and the braces at either end:
/// `${My Var}` becomes `My Var`.
pub fn undecorated_var_name(name: &str) -> (r: Vec<char>)
    ensures
        r@ == trim_braces(strip_sigils(name@)),
{
    let s = chars_of(name);
    let mut k: usize = 0;
    assert(s@.skip(0) == s@);
    while k < s.len() && (s[k] == '$' || s[k] == '@' || s[k] == '&' || s[k] == '%')
        invariant
            k <= s.len(),
            strip_sigils(s@.skip(k as int)) == strip_sigils(s@),
        decreases s.len() - k,
    {
        assert(s@.skip(k as int).drop_first() == s@.skip(k + 1));
        k += 1;
    }
    let t = sub_chars(&s, k, s.len());
    let mut e = t.len();
    assert(t@.take(t.len() as int) == t@);
    while e > 0 && (t[e - 1] == '{' || t[e - 1] == '}')
        invariant
            e <= t.len(),
            trim_braces_end(t@.take(e as int)) == trim_braces_end(t@),
        decreases e,
    {
        assert(t@.take(e as int).drop_last() == t@.take(e - 1));
        e -= 1;
    }
    let u = sub_chars(&t, 0, e);
    let mut b: usize = 0;
    assert(u@.skip(0) == u@);
    while b < u.len() && (u[b] == '{' || u[b] == '}')
        invariant
            b <= u.len(),
            trim_braces_start(u@.skip(b as int)) == trim_braces_start(u@),
        decreases u.len() - b,
    {
        assert(u@.skip(b as int).drop_first() == u@.skip(b + 1));
        b += 1;
    }
    let inner = sub_chars(&u, b, u.len());
    sub_chars(&u, b, u.len())
}

/// Normalize a variable name for comparison: strip the sigil and braces,
/// lower-case it, and turn spaces and hyphens into underscores.
pub fn normalize_var_name(name: &str) -> (r: String)
    ensures
        r@ == normalized_var_name(name@),
{
    let inner = undecorated_var_name(name);
    let low = lowercase_chars(&inner);
    let mut out: Vec<char> = Vec::new();
    let mut i: usize = 0;
    while i < low.len()
        invariant
            i <= low.len(),
            out@ == underscored(low@.take(i as int)),
        decreases low.len() - i,
    {
        let c = low[i];
        out.push(if c == ' ' || c == '-' { '_' } else { c });
        i += 1;
        assert(underscored(low@.take(i as int)) =~= underscored(low@.take(i - 1)).push(
            if c == ' ' || c == '-' { '_' } else { c },
        ));
    }
    assert(low@.take(low.len() as int) == low@);
    string_of(&out)
}

// ── Suggestions for unknown keywords ─────────────────────────────────────────

/// The candidates close to `norm`, in the order given: each candidate is a
/// keyword name with its normalized form, kept with its distance when that
/// is at most 4.
pub open spec fn close_candidates(norm: Seq<char>, cands: Seq<(Seq<char>, Seq<char>)>) -> Seq<(nat, Seq<char>)>
    decreases cands.len(),
{
    if cands.len() == 0 {
        Seq::empty()
    } else {
        let rest = close_candidates(norm, cands.drop_last());
        let d = lev(norm, cands.last().1);
        if d <= 4 {
            rest.push((d, cands.last().0))
        } else {
            rest
        }
    }
}

/// How many leading entries of `s` are at distance at most `d`.
pub open spec fn dist_upper_bound(s: Seq<(nat, Seq<char>)>, d: nat) -> nat
    decreases s.len(),
{
    if s.len() > 0 && s[0].0 <= d {
        1 + dist_upper_bound(s.drop_first(), d)
    } else {
        0
    }
}

/// The entries ordered by distance; entries at the same distance keep
/// their order (a stable sort).
pub open spec fn sort_by_distance(s: Seq<(nat, Seq<char>)>) -> Seq<(nat, Seq<char>)>
    decreases s.len(),
{
    if s.len() == 0 {
        s
    } else {
        let sorted = sort_by_distance(s.drop_last());
        let k = dist_upper_bound(sorted, s.last().0) as int;
        sorted.take(k).push(s.last()) + sorted.skip(k)
    }
}

/// The entries without those whose name repeats the entry just before.
pub open spec fn dedup_names(s: Seq<(nat, Seq<char>)>) -> Seq<(nat, Seq<char>)>
    decreases s.len(),
{
    if s.len() == 0 {
        s
    } else if s.len() >= 2 && s.last().1 == s[s.len() - 2].1 {
        dedup_names(s.drop_last())
    } else {
        dedup_names(s.drop_last()).push(s.last())
    }
}

/// The names suggested for an unknown keyword whose normalized name is
/// `norm`: the close candidates, nearest first, repeated names dropped, at
/// most `max`.
pub open spec fn suggestions(norm: Seq<char>, cands: Seq<(Seq<char>, Seq<char>)>, max: nat) -> Seq<Seq<char>> {
    let d = dedup_names(sort_by_distance(close_candidates(norm, cands)));
    let n = if max < d.len() {
        max as int
    } else {
        d.len() as int
    };
    d.take(n).map_values(|e: (nat, Seq<char>)| e.1)
}

pub open spec fn string_pairs(v: Seq<(String, String)>) -> Seq<(Seq<char>, Seq<char>)> {
    v.map_values(|p: (String, String)| (p.0@, p.1@))
}

pub open spec fn scored_view(v: Seq<(usize, String)>) -> Seq<(nat, Seq<char>)> {
    v.map_values(|p: (usize, String)| (p.0 as nat, p.1@))
}

fn insert_by_distance(v: &mut Vec<(usize, String)>, e: (usize, String))
    ensures
        scored_view(final(v)@) == ({
            let s = scored_view(old(v)@);
            let k = dist_upper_bound(s, e.0 as nat) as int;
            s.take(k).push((e.0 as nat, e.1@)) + s.skip(k)
        }),
{
    let ghost s = scored_view(v@);
    let mut j: usize = 0;
    assert(s.skip(0) == s);
    while j < v.len() && v[j].0 <= e.0
        invariant
            s == scored_view(v@),
            j <= v.len(),
            dist_upper_bound(s, e.0 as nat) == j + dist_upper_bound(s.skip(j as int), e.0 as nat),
        decreases v.len() - j,
    {
        assert(s.skip(j as int).drop_first() == s.skip(j + 1));
        j += 1;
    }
    assert(dist_upper_bound(s.skip(j as int), e.0 as nat) == 0);
    let ghost ev = (e.0 as nat, e.1@);
    v.insert(j, e);
    assert(scored_view(v@) =~= s.take(j as int).push(ev) + s.skip(j as int));
}

/// Rank the candidate keywords for an unknown keyword: each candidate is a
/// keyword name with its normalized form; the names within distance 4 of
/// `norm`, nearest first (ties in the order given), consecutive repeats
/// dropped, at most `max_suggestions` of them.
pub fn rank_suggestions(norm: &str, candidates: Vec<(String, String)>, max_suggestions: usize) -> (r: Vec<String>)
    ensures
        r@.map_values(|s: String| s@) == suggestions(norm@, string_pairs(candidates@), max_suggestions as nat),
{
    let ghost cs = string_pairs(candidates@);
    let mut sorted: Vec<(usize, String)> = Vec::new();
    let mut i: usize = 0;
    let n = candidates.len();
    let mut rest = candidates;
    let ghost all = rest@;
    assert(all.skip(0) == all);
    while i < n
        invariant
            n == all.len(),
            i <= n,
            cs == string_pairs(all),
            rest@ == all.skip(i as int),
            scored_view(sorted@) == sort_by_distance(close_candidates(norm@, cs.take(i as int))),
        decreases n - i,
    {
        let (name, normalized) = rest.remove(0);
        assert(all.skip(i as int)[0] == all[i as int]);
        assert(rest@ == all.skip(i + 1));
        let ghost prev = cs.take(i as int);
        assert(cs.take(i + 1).drop_last() == prev);
        assert(cs.take(i + 1).last() == (name@, normalized@));
        let d = levenshtein(norm, normalized.as_str());
        let ghost cc = close_candidates(norm@, prev);
        if d <= 4 {
            let ghost x = (d as nat, name@);
            assert(close_candidates(norm@, cs.take(i + 1)) == cc.push(x));
            assert(cc.push(x).drop_last() == cc);
            assert(cc.push(x).last() == x);
            insert_by_distance(&mut sorted, (d, name));
        } else {
            assert(close_candidates(norm@, cs.take(i + 1)) == cc);
        }
        i += 1;
    }
    assert(cs.take(n as int) == cs);
    let ghost srt = scored_view(sorted@);
    let mut deduped: Vec<(usize, String)> = Vec::new();
    let mut k: usize = 0;
    while k < sorted.len()
        invariant
            k <= sorted.len(),
            srt == scored_view(sorted@),
            scored_view(deduped@) == dedup_names(srt.take(k as int)),
            k > 0 ==> deduped@.len() > 0 && deduped@.last().1@ == srt[k - 1].1,
        decreases sorted.len() - k,
    {
        assert(srt.take(k + 1).drop_last() == srt.take(k as int));
        let same = k > 0 && deduped[deduped.len() - 1].1 == sorted[k].1;
        if !same {
            deduped.push((sorted[k].0, sorted[k].1.clone()));
            assert(scored_view(deduped@) =~= scored_view(deduped@.drop_last()).push(srt[k as int]));
        }
        proof {
            if k > 0 {
                assert(srt.take(k + 1)[k - 1] == srt[k - 1]);
            }
        }
        k += 1;
    }
    assert(srt.take(sorted.len() as int) == srt);
    let ghost dd = scored_view(deduped@);
    let take = if max_suggestions < deduped.len() {
        max_suggestions
    } else {
        deduped.len()
    };
    let mut r: Vec<String> = Vec::new();
    for t in 0..take
        invariant
            take <= deduped.len(),
            dd == scored_view(deduped@),
            r@.map_values(|s: String| s@) == dd.take(t as int).map_values(|e: (nat, Seq<char>)| e.1),
    {
        let ghost before = r@;
        r.push(deduped[t].1.clone());
        assert(r@ == before.push(deduped@[t as int].1));
        assert(r@.map_values(|s: String| s@) =~= before.map_values(|s: String| s@).push(deduped@[t as int].1@));
        assert(dd[t as int].1 == deduped@[t as int].1@);
        assert(dd.take(t + 1) == dd.take(t as int).push(dd[t as int]));
        assert(dd.take(t + 1).map_values(|e: (nat, Seq<char>)| e.1) =~= dd.take(t as int).map_values(|e: (nat, Seq<char>)| e.1).push(dd[t as int].1));
    }
    r
}

// ── Laws of the ranking ──────────────────────────────────────────────────────

/// The close candidates, nearest first, consecutive repeats dropped.
pub open spec fn ranked(norm: Seq<char>, cands: Seq<(Seq<char>, Seq<char>)>) -> Seq<(nat, Seq<char>)> {
    dedup_names(sort_by_distance(close_candidates(norm, cands)))
}

/// `e` names a candidate at distance `e.0 <= 4` from `norm`.
pub open spec fn is_close_entry(e: (nat, Seq<char>), norm: Seq<char>, cands: Seq<(Seq<char>, Seq<char>)>) -> bool {
    e.0 <= 4 && exists|i: int| 0 <= i < cands.len() && #[trigger] cands[i].0 == e.1 && lev(norm, cands[i].1) == e.0
}

/// The entries are ordered by distance.
pub open spec fn by_distance(s: Seq<(nat, Seq<char>)>) -> bool {
    forall|i: int, j: int| 0 <= i <= j < s.len() ==> (#[trigger] s[i]).0 <= (#[trigger] s[j]).0
}

/// Every entry of `r` is an entry of `s`.
pub open spec fn drawn_from(r: Seq<(nat, Seq<char>)>, s: Seq<(nat, Seq<char>)>) -> bool {
    forall|j: int| 0 <= j < r.len() ==> exists|i: int| 0 <= i < s.len() && #[trigger] s[i] == #[trigger] r[j]
}

proof fn lemma_close_entries(norm: Seq<char>, cands: Seq<(Seq<char>, Seq<char>)>)
    ensures
        forall|j: int|
            0 <= j < close_candidates(norm, cands).len() ==> is_close_entry(
                #[trigger] close_candidates(norm, cands)[j],
                norm,
                cands,
            ),
    decreases cands.len(),
{
    if cands.len() > 0 {
        let ds = cands.drop_last();
        lemma_close_entries(norm, ds);
        let rest = close_candidates(norm, ds);
        let c = close_candidates(norm, cands);
        assert forall|j: int| 0 <= j < c.len() implies is_close_entry(#[trigger] c[j], norm, cands) by {
            if j < rest.len() {
                assert(c[j] == rest[j]);
                assert(is_close_entry(rest[j], norm, ds));
                let i = choose|i: int| 0 <= i < ds.len() && #[trigger] ds[i].0 == rest[j].1 && lev(norm, ds[i].1) == rest[j].0;
                assert(cands[i] == ds[i]);
            } else {
                let i = cands.len() - 1;
                assert(cands[i].0 == c[j].1);
            }
        }
    }
}

proof fn lemma_upper_bound(s: Seq<(nat, Seq<char>)>, d: nat)
    ensures
        dist_upper_bound(s, d) <= s.len(),
        forall|j: int| 0 <= j < dist_upper_bound(s, d) ==> (#[trigger] s[j]).0 <= d,
        dist_upper_bound(s, d) < s.len() ==> s[dist_upper_bound(s, d) as int].0 > d,
    decreases s.len(),
{
    if s.len() > 0 && s[0].0 <= d {
        lemma_upper_bound(s.drop_first(), d);
        assert forall|j: int| 0 <= j < dist_upper_bound(s, d) implies (#[trigger] s[j]).0 <= d by {
            if j > 0 {
                assert(s[j] == s.drop_first()[j - 1]);
            }
        }
    }
}

proof fn lemma_sort(s: Seq<(nat, Seq<char>)>)
    ensures
        sort_by_distance(s).len() == s.len(),
        by_distance(sort_by_distance(s)),
        drawn_from(sort_by_distance(s), s),
    decreases s.len(),
{
    if s.len() > 0 {
        let t = s.drop_last();
        let x = s.last();
        lemma_sort(t);
        let sorted = sort_by_distance(t);
        lemma_upper_bound(sorted, x.0);
        let k = dist_upper_bound(sorted, x.0) as int;
        let r = sorted.take(k).push(x) + sorted.skip(k);
        assert(r == sort_by_distance(s));
        assert forall|a: int| 0 <= a < r.len() implies #[trigger] r[a] == (if a < k {
            sorted[a]
        } else if a == k {
            x
        } else {
            sorted[a - 1]
        }) by {}
        assert forall|a: int, b: int| 0 <= a <= b < r.len() implies (#[trigger] r[a]).0 <= (#[trigger] r[b]).0 by {
            if a < k && b == k {
            } else if a == k && b > k {
                assert(sorted[k].0 > x.0);
                assert(sorted[k].0 <= sorted[b - 1].0);
            } else if a < k && b > k {
                assert(sorted[a].0 <= sorted[b - 1].0);
            }
        }
        assert forall|j: int| 0 <= j < r.len() implies exists|i: int| 0 <= i < s.len() && #[trigger] s[i] == #[trigger] r[j] by {
            if j == k {
                assert(s[s.len() - 1] == r[j]);
            } else {
                let jj = if j < k { j } else { j - 1 };
                assert(r[j] == sorted[jj]);
                let i = choose|i: int| 0 <= i < t.len() && #[trigger] t[i] == #[trigger] sorted[jj];
                assert(s[i] == t[i]);
            }
        }
    }
}

proof fn lemma_dedup(s: Seq<(nat, Seq<char>)>)
    requires
        by_distance(s),
    ensures
        by_distance(dedup_names(s)),
        drawn_from(dedup_names(s), s),
        dedup_names(s).len() <= s.len(),
        s.len() > 0 ==> dedup_names(s).len() > 0 && dedup_names(s).last().1 == s.last().1,
        forall|j: int| 0 < j < dedup_names(s).len() ==> (#[trigger] dedup_names(s)[j]).1 != dedup_names(s)[j - 1].1,
    decreases s.len(),
{
    if s.len() > 0 {
        let t = s.drop_last();
        assert(by_distance(t)) by {
            assert forall|i: int, j: int| 0 <= i <= j < t.len() implies (#[trigger] t[i]).0 <= (#[trigger] t[j]).0 by {
                assert(t[i] == s[i] && t[j] == s[j]);
            }
        }
        lemma_dedup(t);
        let dt = dedup_names(t);
        let d = dedup_names(s);
        assert(drawn_from(dt, s)) by {
            assert forall|j: int| 0 <= j < dt.len() implies exists|i: int| 0 <= i < s.len() && #[trigger] s[i] == #[trigger] dt[j] by {
                let i = choose|i: int| 0 <= i < t.len() && #[trigger] t[i] == #[trigger] dt[j];
                assert(s[i] == t[i]);
            }
        }
        if s.len() >= 2 && s.last().1 == s[s.len() - 2].1 {
            assert(d == dt);
            assert(t.last() == s[s.len() - 2]);
        } else {
            assert(d == dt.push(s.last()));
            assert forall|a: int, b: int| 0 <= a <= b < d.len() implies (#[trigger] d[a]).0 <= (#[trigger] d[b]).0 by {
                if b == d.len() - 1 && a < b {
                    assert(d[a] == dt[a]);
                    let i = choose|i: int| 0 <= i < s.len() && #[trigger] s[i] == #[trigger] dt[a];
                    assert(s[i].0 <= s[s.len() - 1].0);
                } else if a < b {
                    assert(d[a] == dt[a] && d[b] == dt[b]);
                }
            }
            assert forall|j: int| 0 <= j < d.len() implies exists|i: int| 0 <= i < s.len() && #[trigger] s[i] == #[trigger] d[j] by {
                if j == d.len() - 1 {
                    assert(s[s.len() - 1] == d[j]);
                } else {
                    assert(d[j] == dt[j]);
                }
            }
            assert forall|j: int| 0 < j < d.len() implies (#[trigger] d[j]).1 != d[j - 1].1 by {
                if j == d.len() - 1 {
                    assert(d[j - 1] == dt.last());
                    assert(t.last() == s[s.len() - 2]);
                } else {
                    assert(d[j] == dt[j] && d[j - 1] == dt[j - 1]);
                }
            }
        }
    }
}

/// The suggestions for an unknown keyword are at most `max` names, each of
/// a candidate within distance 4 of it, nearest first, with no name
/// repeating the one just before it.
pub proof fn lemma_suggestions_ranked(norm: Seq<char>, cands: Seq<(Seq<char>, Seq<char>)>, max: nat)
    ensures
        ({
            let d = ranked(norm, cands);
            let r = suggestions(norm, cands, max);
            &&& r.len() <= max
            &&& r.len() <= d.len()
            &&& forall|j: int| 0 <= j < r.len() ==> #[trigger] r[j] == d[j].1
            &&& forall|j: int| 0 <= j < d.len() ==> is_close_entry(#[trigger] d[j], norm, cands)
            &&& by_distance(d)
            &&& forall|j: int| 0 < j < d.len() ==> (#[trigger] d[j]).1 != d[j - 1].1
        }),
{
    let c = close_candidates(norm, cands);
    lemma_close_entries(norm, cands);
    lemma_sort(c);
    let srt = sort_by_distance(c);
    lemma_dedup(srt);
    let d = ranked(norm, cands);
    assert forall|j: int| 0 <= j < d.len() implies is_close_entry(#[trigger] d[j], norm, cands) by {
        let i = choose|i: int| 0 <= i < srt.len() && #[trigger] srt[i] == #[trigger] d[j];
        let m = choose|m: int| 0 <= m < c.len() && #[trigger] c[m] == #[trigger] srt[i];
        assert(is_close_entry(c[m], norm, cands));
    }
}

} // verus!
