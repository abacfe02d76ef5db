//! Association lists as maps.  The library keeps its string maps as vectors
//! of pairs in insertion order; where two entries share a key, the first one
//! wins.  These helpers give the vectors their mathematical map meaning.

use crate::text::str_eq;
use vstd::prelude::*;

verus! {

/// The map meaning of a sequence of pairs: where a key repeats, the
/// earliest pair wins.
pub open spec fn seq_first_map<K, V>(s: Seq<(K, V)>) -> Map<K, V>
    decreases s.len(),
{
    if s.len() == 0 {
        Map::empty()
    } else {
        seq_first_map(s.drop_first()).insert(s[0].0, s[0].1)
    }
}

/// If `i` is the first position whose pair carries `k`, the map meaning
/// binds `k` to that pair's value.
pub proof fn lemma_first_map_present<K, V>(s: Seq<(K, V)>, k: K, i: int)
    requires
        0 <= i < s.len(),
        s[i].0 == k,
        forall|j: int| 0 <= j < i ==> s[j].0 != k,
    ensures
        seq_first_map(s).dom().contains(k),
        seq_first_map(s)[k] == s[i].1,
    decreases s.len(),
{
    if i > 0 {
        assert(s.drop_first()[i - 1].0 == k);
        assert forall|j: int| 0 <= j < i - 1 implies s.drop_first()[j].0 != k by {
            assert(s.drop_first()[j] == s[j + 1]);
        }
        lemma_first_map_present(s.drop_first(), k, i - 1);
    }
}

/// A key no pair carries is not in the map meaning's domain.
pub proof fn lemma_first_map_absent<K, V>(s: Seq<(K, V)>, k: K)
    requires
        forall|j: int| 0 <= j < s.len() ==> s[j].0 != k,
    ensures
        !seq_first_map(s).dom().contains(k),
    decreases s.len(),
{
    if s.len() > 0 {
        assert forall|j: int| 0 <= j < s.drop_first().len() implies s.drop_first()[j].0 != k by {
            assert(s.drop_first()[j] == s[j + 1]);
        }
        lemma_first_map_absent(s.drop_first(), k);
    }
}

/// Replacing the first pair that carries a key updates the map meaning at
/// that key alone.
proof fn lemma_first_map_update<K, V>(s: Seq<(K, V)>, i: int, k: K, v: V)
    requires
        0 <= i < s.len(),
        s[i].0 == k,
        forall|j: int| 0 <= j < i ==> s[j].0 != k,
    ensures
        seq_first_map(s.update(i, (k, v))) == seq_first_map(s).insert(k, v),
    decreases s.len(),
{
    let su = s.update(i, (k, v));
    if i == 0 {
        assert(su.drop_first() =~= s.drop_first());
        assert(seq_first_map(su) =~= seq_first_map(s).insert(k, v));
    } else {
        assert(su.drop_first() =~= s.drop_first().update(i - 1, (k, v)));
        assert(s.drop_first()[i - 1].0 == k);
        assert forall|j: int| 0 <= j < i - 1 implies s.drop_first()[j].0 != k by {
            assert(s.drop_first()[j] == s[j + 1]);
        }
        lemma_first_map_update(s.drop_first(), i - 1, k, v);
        assert(s[0].0 != k);
        assert(seq_first_map(su) =~= seq_first_map(s).insert(k, v));
    }
}

/// Appending a pair with a fresh key inserts it into the map meaning.
proof fn lemma_first_map_push<K, V>(s: Seq<(K, V)>, k: K, v: V)
    requires
        forall|j: int| 0 <= j < s.len() ==> s[j].0 != k,
    ensures
        seq_first_map(s.push((k, v))) == seq_first_map(s).insert(k, v),
    decreases s.len(),
{
    let sp = s.push((k, v));
    if s.len() == 0 {
        assert(sp.len() == 1);
        assert(sp[0] == (k, v));
        assert(sp.drop_first() =~= Seq::<(K, V)>::empty());
        assert(seq_first_map(sp) == seq_first_map(sp.drop_first()).insert(sp[0].0, sp[0].1));
        assert(seq_first_map(sp) =~= seq_first_map(s).insert(k, v));
    } else {
        assert(sp.drop_first() =~= s.drop_first().push((k, v)));
        assert forall|j: int| 0 <= j < s.drop_first().len() implies s.drop_first()[j].0 != k by {
            assert(s.drop_first()[j] == s[j + 1]);
        }
        lemma_first_map_push(s.drop_first(), k, v);
        assert(s[0].0 != k);
        assert(seq_first_map(sp) =~= seq_first_map(s).insert(k, v));
    }
}

/// Whether some pair in the list carries key `k`.
pub open spec fn seq_has_key<K, V>(s: Seq<(K, V)>, k: K) -> bool {
    exists|i: int| 0 <= i < s.len() && s[i].0 == k
}

/// Appending a pair adds exactly its key.
pub proof fn lemma_push_key<K, V>(s: Seq<(K, V)>, p: (K, V), k: K)
    ensures
        seq_has_key(s.push(p), k) <==> (seq_has_key(s, k) || p.0 == k),
{
    if seq_has_key(s.push(p), k) {
        let i = choose|i: int| 0 <= i < s.push(p).len() && s.push(p)[i].0 == k;
        if i < s.len() {
            assert(s[i].0 == k);
        }
    }
    if seq_has_key(s, k) {
        let i = choose|i: int| 0 <= i < s.len() && s[i].0 == k;
        assert(s.push(p)[i].0 == k);
    }
    if p.0 == k {
        assert(s.push(p)[s.len() as int].0 == k);
    }
}

/// What appending a pair does to the map meaning: nothing when the key is
/// already bound (the first pair wins), an insertion otherwise.
pub proof fn lemma_first_map_push_any<K, V>(s: Seq<(K, V)>, k: K, v: V)
    ensures
        seq_first_map(s.push((k, v))) == if seq_has_key(s, k) {
            seq_first_map(s)
        } else {
            seq_first_map(s).insert(k, v)
        },
    decreases s.len(),
{
    let sp = s.push((k, v));
    if s.len() == 0 {
        assert(sp[0] == (k, v));
        assert(sp.drop_first() =~= Seq::<(K, V)>::empty());
        assert(seq_first_map(sp) == seq_first_map(sp.drop_first()).insert(sp[0].0, sp[0].1));
        assert(seq_first_map(sp) =~= seq_first_map(s).insert(k, v));
    } else {
        assert(sp.drop_first() =~= s.drop_first().push((k, v)));
        lemma_first_map_push_any(s.drop_first(), k, v);
        if seq_has_key(s, k) {
            let i = choose|i: int| 0 <= i < s.len() && s[i].0 == k;
            if s[0].0 == k {
                if seq_has_key(s.drop_first(), k) {
                    assert(seq_first_map(sp) =~= seq_first_map(s));
                } else {
                    assert(seq_first_map(sp) =~= seq_first_map(s));
                }
            } else {
                assert(s.drop_first()[i - 1].0 == k);
                assert(seq_has_key(s.drop_first(), k));
                assert(seq_first_map(sp) =~= seq_first_map(s));
            }
        } else {
            assert forall|j: int| 0 <= j < s.drop_first().len() implies s.drop_first()[j].0
                != k by {
                assert(s.drop_first()[j] == s[j + 1]);
            }
            if seq_has_key(s.drop_first(), k) {
                let i = choose|i: int| 0 <= i < s.drop_first().len() && s.drop_first()[i].0 == k;
                assert(false);
            }
            assert(s[0].0 != k);
            assert(seq_first_map(sp) =~= seq_first_map(s).insert(k, v));
        }
    }
}

/// A key is bound in the map meaning exactly when some pair carries it.
pub proof fn lemma_first_map_dom<K, V>(s: Seq<(K, V)>, k: K)
    ensures
        seq_first_map(s).dom().contains(k) <==> seq_has_key(s, k),
    decreases s.len(),
{
    if s.len() > 0 {
        lemma_first_map_dom(s.drop_first(), k);
        if s[0].0 == k {
            assert(s[0].0 == k);
        }
        if seq_has_key(s, k) && s[0].0 != k {
            let i = choose|i: int| 0 <= i < s.len() && s[i].0 == k;
            assert(s.drop_first()[i - 1].0 == k);
            assert(seq_has_key(s.drop_first(), k));
        }
        if seq_has_key(s.drop_first(), k) {
            let i = choose|i: int| 0 <= i < s.drop_first().len() && s.drop_first()[i].0 == k;
            assert(s[i + 1].0 == k);
            assert(seq_has_key(s, k));
        }
    }
}

/// A key of two lists run together takes the first list's binding when it
/// has one, the second's otherwise.
pub proof fn lemma_concat_key<K, V>(a: Seq<(K, V)>, b: Seq<(K, V)>, k: K)
    ensures
        seq_has_key(a + b, k) <==> (seq_has_key(a, k) || seq_has_key(b, k)),
        seq_has_key(a, k) ==> seq_first_map(a + b)[k] == seq_first_map(a)[k],
        !seq_has_key(a, k) && seq_has_key(b, k) ==> seq_first_map(a + b)[k] == seq_first_map(b)[k],
{
    lemma_first_map_concat(a, b);
    lemma_first_map_dom(a, k);
    lemma_first_map_dom(b, k);
    lemma_first_map_dom(a + b, k);
    if seq_has_key(a + b, k) {
        let i = choose|i: int| 0 <= i < (a + b).len() && (a + b)[i].0 == k;
        if i < a.len() {
            assert(a[i].0 == k);
        } else {
            assert(b[i - a.len()].0 == k);
        }
    }
    if seq_has_key(a, k) {
        let i = choose|i: int| 0 <= i < a.len() && a[i].0 == k;
        assert((a + b)[i].0 == k);
    }
    if seq_has_key(b, k) {
        let i = choose|i: int| 0 <= i < b.len() && b[i].0 == k;
        assert((a + b)[a.len() + i].0 == k);
    }
}

/// The map meaning of two lists run together: the first list's pairs win
/// over the second's.
pub proof fn lemma_first_map_concat<K, V>(a: Seq<(K, V)>, b: Seq<(K, V)>)
    ensures
        seq_first_map(a + b) == seq_first_map(b).union_prefer_right(seq_first_map(a)),
    decreases a.len(),
{
    if a.len() == 0 {
        assert(a + b =~= b);
        assert(seq_first_map(b).union_prefer_right(seq_first_map(a)) =~= seq_first_map(b));
    } else {
        assert((a + b).drop_first() =~= a.drop_first() + b);
        lemma_first_map_concat(a.drop_first(), b);
        assert((a + b)[0] == a[0]);
        assert(seq_first_map(a + b) =~= seq_first_map(b).union_prefer_right(seq_first_map(a)));
    }
}

/// Looks a key up in an association list of strings: the first pair whose
/// key equals `key`, read as the map meaning of the list.
pub fn map_get<'a>(entries: &'a Vec<(String, String)>, key: &str) -> (r: Option<&'a String>)
    ensures
        match r {
            Some(v) => seq_first_map(entries.deep_view()).dom().contains(key@) && v@
                == seq_first_map(entries.deep_view())[key@],
            None => !seq_first_map(entries.deep_view()).dom().contains(key@),
        },
{
    let ghost dv = entries.deep_view();
    let mut i: usize = 0;
    while i < entries.len()
        invariant
            i <= entries.len(),
            dv == entries.deep_view(),
            dv.len() == entries@.len(),
            forall|j: int| 0 <= j < i ==> dv[j].0 != key@,
        decreases entries.len() - i,
    {
        proof {
            assert(dv[i as int] == (entries@[i as int].0@, entries@[i as int].1@));
        }
        if str_eq(entries[i].0.as_str(), key) {
            proof {
                lemma_first_map_present(dv, key@, i as int);
            }
            return Some(&entries[i].1);
        }
        i = i + 1;
    }
    proof {
        lemma_first_map_absent(dv, key@);
    }
    None
}

/// Whether the association list has a pair with this key.
pub fn map_contains(entries: &Vec<(String, String)>, key: &str) -> (r: bool)
    ensures
        r == seq_first_map(entries.deep_view()).dom().contains(key@),
{
    match map_get(entries, key) {
        Some(_) => true,
        None => false,
    }
}

/// Binds `key` to `val` in the association list: the map meaning afterwards
/// is the old meaning with `key` inserted.  The first pair already carrying
/// the key is replaced in place; a new key is appended.
pub fn map_set(entries: &mut Vec<(String, String)>, key: String, val: String)
    ensures
        seq_first_map(final(entries).deep_view()) == seq_first_map(old(entries).deep_view()).insert(
            key@,
            val@,
        ),
{
    let ghost dv = entries.deep_view();
    let ghost kv = key@;
    let ghost vv = val@;
    let mut i: usize = 0;
    while i < entries.len()
        invariant
            i <= entries.len(),
            dv == entries.deep_view(),
            dv == old(entries).deep_view(),
            dv.len() == entries@.len(),
            forall|j: int| 0 <= j < i ==> dv[j].0 != kv,
            kv == key@,
            vv == val@,
        decreases entries.len() - i,
    {
        proof {
            assert(dv[i as int] == (entries@[i as int].0@, entries@[i as int].1@));
        }
        if str_eq(entries[i].0.as_str(), key.as_str()) {
            entries.set(i, (key, val));
            proof {
                assert(entries.deep_view() =~~= dv.update(i as int, (kv, vv)));
                lemma_first_map_update(dv, i as int, kv, vv);
            }
            return ;
        }
        i = i + 1;
    }
    entries.push((key, val));
    proof {
        assert(entries.deep_view() =~~= dv.push((kv, vv)));
        lemma_first_map_push(dv, kv, vv);
    }
}

} // verus!
