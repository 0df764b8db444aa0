//! Tables keyed by text, held as vectors of entries with distinct keys.
use vstd::prelude::*;

verus! {

/// The map that a table of entries stands for: a later entry for a key
/// replaces an earlier one.
pub open spec fn table_map<V>(s: Seq<(Seq<char>, V)>) -> Map<Seq<char>, V>
    decreases s.len(),
{
    if s.len() == 0 {
        Map::empty()
    } else {
        table_map(s.drop_last()).insert(s.last().0, s.last().1)
    }
}

/// No key occurs in two entries.
pub open spec fn keys_unique<V>(s: Seq<(Seq<char>, V)>) -> bool {
    forall|i: int, j: int| 0 <= i < j < s.len() ==> s[i].0 != s[j].0
}

/// Replacing the value of an entry is inserting into the map.
pub proof fn lemma_table_update<V>(s: Seq<(Seq<char>, V)>, i: int, v: V)
    requires
        0 <= i < s.len(),
        keys_unique(s),
    ensures
        table_map(s.update(i, (s[i].0, v))) == table_map(s).insert(s[i].0, v),
    decreases s.len(),
{
    let k = s[i].0;
    let u = s.update(i, (k, v));
    if i == s.len() - 1 {
        assert(u.drop_last() == s.drop_last());
        assert(table_map(u) =~= table_map(s).insert(k, v));
    } else {
        let d = s.drop_last();
        assert(u.drop_last() == d.update(i, (k, v)));
        assert(keys_unique(d));
        lemma_table_update(d, i, v);
        assert(s.last().0 != k);
        assert(u.last() == s.last());
        assert(table_map(u) =~= table_map(s).insert(k, v));
    }
}

/// A key in no entry is not in the map.
pub proof fn lemma_table_absent<V>(s: Seq<(Seq<char>, V)>, k: Seq<char>)
    requires
        forall|j: int| 0 <= j < s.len() ==> s[j].0 != k,
    ensures
        !table_map(s).dom().contains(k),
    decreases s.len(),
{
    if s.len() > 0 {
        lemma_table_absent(s.drop_last(), k);
    }
}

/// The map holds each entry's key with that entry's value.
pub proof fn lemma_table_lookup<V>(s: Seq<(Seq<char>, V)>, i: int)
    requires
        0 <= i < s.len(),
        keys_unique(s),
    ensures
        table_map(s).contains_key(s[i].0),
        table_map(s)[s[i].0] == s[i].1,
    decreases s.len(),
{
    if i < s.len() - 1 {
        let d = s.drop_last();
        assert(keys_unique(d));
        assert(d[i] == s[i]);
        lemma_table_lookup(d, i);
        assert(s.last().0 != s[i].0);
    }
}

} // verus!
