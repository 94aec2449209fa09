//! Vectors of key/value entries with distinct keys, read as finite maps.
use vstd::prelude::*;

verus! {

/// No key occurs twice.
pub open spec fn unique_keys<K, V>(s: Seq<(K, V)>) -> bool {
    forall|i: int, j: int| 0 <= i < s.len() && 0 <= j < s.len() && i != j ==> s[i].0 != s[j].0
}

/// Some entry has key `k`.
pub open spec fn has_key<K, V>(s: Seq<(K, V)>, k: K) -> bool {
    exists|i: int| 0 <= i < s.len() && s[i].0 == k
}

/// The position of an entry with key `k`.
pub open spec fn key_index<K, V>(s: Seq<(K, V)>, k: K) -> int {
    choose|i: int| 0 <= i < s.len() && s[i].0 == k
}

/// The map from each key to the value of its entry.
pub open spec fn table<K, V>(s: Seq<(K, V)>) -> Map<K, V> {
    Map::new(|k: K| has_key(s, k), |k: K| s[key_index(s, k)].1)
}

/// An entry of a list with distinct keys is what the table holds under its key.
pub proof fn lemma_table_index<K, V>(s: Seq<(K, V)>, i: int)
    requires
        unique_keys(s),
        0 <= i < s.len(),
    ensures
        table(s).contains_key(s[i].0),
        table(s)[s[i].0] == s[i].1,
        key_index(s, s[i].0) == i,
{
    assert(has_key(s, s[i].0));
}

/// Appending an entry under a new key adds that key to the table and keeps keys distinct.
pub proof fn lemma_table_push<K, V>(s: Seq<(K, V)>, k: K, v: V)
    requires
        unique_keys(s),
        !table(s).contains_key(k),
    ensures
        unique_keys(s.push((k, v))),
        table(s.push((k, v))) == table(s).insert(k, v),
{
    let t = s.push((k, v));
    assert forall|i: int, j: int| 0 <= i < t.len() && 0 <= j < t.len() && i != j implies t[i].0
        != t[j].0 by {
        if i == s.len() {
            assert(!has_key(s, k));
            assert(s[j].0 != k);
        } else if j == s.len() {
            assert(!has_key(s, k));
            assert(s[i].0 != k);
        }
    }
    assert forall|x: K| #[trigger] table(t).contains_key(x) == table(s).insert(k, v).contains_key(
        x,
    ) by {
        if has_key(t, x) && x != k {
            let i = choose|i: int| 0 <= i < t.len() && t[i].0 == x;
            assert(i < s.len());
            assert(has_key(s, x));
        }
        if has_key(s, x) {
            let i = choose|i: int| 0 <= i < s.len() && s[i].0 == x;
            assert(t[i].0 == x);
        }
        if x == k {
            assert(t[s.len() as int].0 == x);
        }
    }
    assert forall|x: K| #[trigger] table(t).contains_key(x) implies table(t)[x] == table(s).insert(
        k,
        v,
    )[x] by {
        lemma_table_index(t, key_index(t, x));
        if x == k {
            lemma_table_index(t, s.len() as int);
        } else {
            let i = key_index(t, x);
            assert(i < s.len());
            lemma_table_index(s, i);
        }
    }
    assert(table(t) =~= table(s).insert(k, v));
}

/// Replacing the value of an entry replaces it in the table and keeps keys distinct.
pub proof fn lemma_table_update<K, V>(s: Seq<(K, V)>, i: int, v: V)
    requires
        unique_keys(s),
        0 <= i < s.len(),
    ensures
        unique_keys(s.update(i, (s[i].0, v))),
        table(s.update(i, (s[i].0, v))) == table(s).insert(s[i].0, v),
{
    let t = s.update(i, (s[i].0, v));
    assert forall|x: K| #[trigger] table(t).contains_key(x) == table(s).insert(s[i].0, v).contains_key(
        x,
    ) by {
        if has_key(t, x) {
            let j = choose|j: int| 0 <= j < t.len() && t[j].0 == x;
            assert(s[j].0 == x);
        }
        if has_key(s, x) {
            let j = choose|j: int| 0 <= j < s.len() && s[j].0 == x;
            assert(t[j].0 == x);
        }
    }
    assert forall|x: K| #[trigger] table(t).contains_key(x) implies table(t)[x] == table(s).insert(
        s[i].0,
        v,
    )[x] by {
        let j = key_index(t, x);
        lemma_table_index(t, j);
        if j != i {
            lemma_table_index(s, j);
        }
    }
    assert(table(t) =~= table(s).insert(s[i].0, v));
}

/// Removing an entry removes its key from the table and keeps keys distinct.
pub proof fn lemma_table_remove<K, V>(s: Seq<(K, V)>, i: int)
    requires
        unique_keys(s),
        0 <= i < s.len(),
    ensures
        unique_keys(s.remove(i)),
        table(s.remove(i)) == table(s).remove(s[i].0),
{
    let t = s.remove(i);
    assert forall|a: int, b: int| 0 <= a < t.len() && 0 <= b < t.len() && a != b implies t[a].0
        != t[b].0 by {
        let a2 = if a < i {
            a
        } else {
            a + 1
        };
        let b2 = if b < i {
            b
        } else {
            b + 1
        };
        assert(t[a] == s[a2] && t[b] == s[b2]);
    }
    assert forall|x: K| #[trigger] table(t).contains_key(x) == table(s).remove(s[i].0).contains_key(
        x,
    ) by {
        if has_key(t, x) {
            let j = choose|j: int| 0 <= j < t.len() && t[j].0 == x;
            let j2 = if j < i {
                j
            } else {
                j + 1
            };
            assert(s[j2].0 == x);
            assert(j2 != i);
        }
        if has_key(s, x) && x != s[i].0 {
            let j = choose|j: int| 0 <= j < s.len() && s[j].0 == x;
            assert(j != i);
            let j2 = if j < i {
                j
            } else {
                j - 1
            };
            assert(t[j2].0 == x);
        }
    }
    assert forall|x: K| #[trigger] table(t).contains_key(x) implies table(t)[x] == table(s).remove(
        s[i].0,
    )[x] by {
        let j = key_index(t, x);
        lemma_table_index(t, j);
        let j2 = if j < i {
            j
        } else {
            j + 1
        };
        assert(t[j] == s[j2]);
        lemma_table_index(s, j2);
    }
    assert(table(t) =~= table(s).remove(s[i].0));
}

/// A list with distinct keys has as many entries as its table has keys.
pub proof fn lemma_table_len<K, V>(s: Seq<(K, V)>)
    requires
        unique_keys(s),
    ensures
        table(s).dom().finite(),
        table(s).dom().len() == s.len(),
    decreases s.len(),
{
    if s.len() == 0 {
        assert(table(s).dom() =~= Set::<K>::empty());
    } else {
        let p = s.drop_last();
        assert(unique_keys(p));
        lemma_table_len(p);
        assert(!table(p).contains_key(s.last().0)) by {
            if has_key(p, s.last().0) {
                let j = choose|j: int| 0 <= j < p.len() && p[j].0 == s.last().0;
                assert(s[j].0 == s[s.len() - 1].0);
            }
        }
        lemma_table_push(p, s.last().0, s.last().1);
        assert(p.push(s.last()) =~= s);
    }
}

/// The empty list is the empty table.
pub proof fn lemma_table_empty<K, V>()
    ensures
        table(Seq::<(K, V)>::empty()) == Map::<K, V>::empty(),
        unique_keys(Seq::<(K, V)>::empty()),
{
    assert(table(Seq::<(K, V)>::empty()) =~= Map::<K, V>::empty());
}

/// Inserting an entry under a new key at any position adds that key to the table and keeps keys distinct.
pub proof fn lemma_table_insert_at<K, V>(s: Seq<(K, V)>, pos: int, k: K, v: V)
    requires
        unique_keys(s),
        0 <= pos <= s.len(),
        !table(s).contains_key(k),
    ensures
        unique_keys(s.insert(pos, (k, v))),
        table(s.insert(pos, (k, v))) == table(s).insert(k, v),
{
    let t = s.insert(pos, (k, v));
    assert(!has_key(s, k));
    assert forall|a: int, b: int| 0 <= a < t.len() && 0 <= b < t.len() && a != b implies t[a].0
        != t[b].0 by {
        if a != pos && b != pos {
            let a2 = if a < pos {
                a
            } else {
                a - 1
            };
            let b2 = if b < pos {
                b
            } else {
                b - 1
            };
            assert(t[a] == s[a2] && t[b] == s[b2]);
        } else if a == pos {
            let b2 = if b < pos {
                b
            } else {
                b - 1
            };
            assert(t[b] == s[b2]);
        } else {
            let a2 = if a < pos {
                a
            } else {
                a - 1
            };
            assert(t[a] == s[a2]);
        }
    }
    assert forall|x: K| #[trigger] table(t).contains_key(x) == table(s).insert(k, v).contains_key(
        x,
    ) by {
        if has_key(t, x) && x != k {
            let j = choose|j: int| 0 <= j < t.len() && t[j].0 == x;
            let j2 = if j < pos {
                j
            } else {
                j - 1
            };
            assert(s[j2].0 == x);
        }
        if has_key(s, x) {
            let j = choose|j: int| 0 <= j < s.len() && s[j].0 == x;
            let j2 = if j < pos {
                j
            } else {
                j + 1
            };
            assert(t[j2].0 == x);
        }
        if x == k {
            assert(t[pos].0 == x);
        }
    }
    assert forall|x: K| #[trigger] table(t).contains_key(x) implies table(t)[x] == table(s).insert(
        k,
        v,
    )[x] by {
        let j = key_index(t, x);
        lemma_table_index(t, j);
        if j != pos {
            let j2 = if j < pos {
                j
            } else {
                j - 1
            };
            assert(t[j] == s[j2]);
            lemma_table_index(s, j2);
        }
    }
    assert(table(t) =~= table(s).insert(k, v));
}

} // verus!
