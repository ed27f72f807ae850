use vstd::prelude::*;

verus! {

/// A key and the value stored under it, as character sequences.
pub type Entry = (Seq<char>, Seq<char>);

pub open spec fn entry_view(e: (String, String)) -> Entry {
    (e.0@, e.1@)
}

pub open spec fn table_view(t: Seq<(String, String)>) -> Seq<Entry> {
    t.map_values(|e: (String, String)| entry_view(e))
}

pub open spec fn has_key<V>(t: Seq<(Seq<char>, V)>, k: Seq<char>) -> bool {
    exists|i: int| 0 <= i < t.len() && t[i].0 == k
}

/// No key occurs twice.
pub open spec fn unique_keys<V>(t: Seq<(Seq<char>, V)>) -> bool {
    forall|i: int, j: int| 0 <= i < j < t.len() ==> t[i].0 != t[j].0
}

/// Inserting into a table: an entry under the same key is replaced in place,
/// a new key goes to the end.
pub open spec fn table_insert<V>(t: Seq<(Seq<char>, V)>, e: (Seq<char>, V)) -> Seq<(Seq<char>, V)> {
    if has_key(t, e.0) {
        t.map_values(|p: (Seq<char>, V)| if p.0 == e.0 { e } else { p })
    } else {
        t.push(e)
    }
}

/// The table that inserting `entries` in order into `t` gives.
pub open spec fn table_of<V>(t: Seq<(Seq<char>, V)>, entries: Seq<(Seq<char>, V)>) -> Seq<(Seq<char>, V)>
    decreases entries.len(),
{
    if entries.len() == 0 {
        t
    } else {
        table_insert(table_of(t, entries.drop_last()), entries.last())
    }
}

pub proof fn lemma_insert_keeps_unique<V>(t: Seq<(Seq<char>, V)>, e: (Seq<char>, V))
    requires
        unique_keys(t),
    ensures
        unique_keys(table_insert(t, e)),
        forall|k: Seq<char>| has_key(table_insert(t, e), k) <==> (has_key(t, k) || k == e.0),
{
    let r = table_insert(t, e);
    if has_key(t, e.0) {
        assert forall|k: Seq<char>| has_key(r, k) <==> (has_key(t, k) || k == e.0) by {
            if has_key(r, k) {
                let i = choose|i: int| 0 <= i < r.len() && r[i].0 == k;
                assert(t[i].0 == k);
            }
            if has_key(t, k) {
                let i = choose|i: int| 0 <= i < t.len() && t[i].0 == k;
                assert(r[i].0 == k);
            }
        }
    } else {
        assert forall|k: Seq<char>| has_key(r, k) <==> (has_key(t, k) || k == e.0) by {
            if has_key(t, k) {
                let i = choose|i: int| 0 <= i < t.len() && t[i].0 == k;
                assert(r[i].0 == k);
            }
            if k == e.0 {
                assert(r[t.len() as int].0 == k);
            }
        }
    }
}

pub proof fn lemma_table_of_unique<V>(t: Seq<(Seq<char>, V)>, entries: Seq<(Seq<char>, V)>)
    requires
        unique_keys(t),
    ensures
        unique_keys(table_of(t, entries)),
    decreases entries.len(),
{
    if entries.len() > 0 {
        lemma_table_of_unique(t, entries.drop_last());
        lemma_insert_keeps_unique(table_of(t, entries.drop_last()), entries.last());
    }
}

/// Inserts `key` with `value`, replacing the value of an entry with the same key.
pub fn insert_entry(t: &mut Vec<(String, String)>, key: String, value: String)
    ensures
        table_view(final(t)@) == table_insert(table_view(old(t)@), (key@, value@)),
{
    let ghost before = table_view(t@);
    let ghost e = (key@, value@);
    let n = t.len();
    let mut found = false;
    let mut i: usize = 0;
    while i < n
        invariant
            n == t@.len(),
            n == before.len(),
            e == (key@, value@),
            i <= n,
            found == (exists|j: int| 0 <= j < i && before[j].0 == e.0),
            forall|j: int| 0 <= j < i ==> entry_view(#[trigger] t@[j]) == (if before[j].0 == e.0 { e } else { before[j] }),
            forall|j: int| i <= j < n ==> entry_view(#[trigger] t@[j]) == before[j],
        decreases n - i,
    {
        assert(entry_view(t@[i as int]) == before[i as int]);
        let same = t[i].0.eq(&key);
        if same {
            t.set(i, (key.clone(), value.clone()));
            found = true;
        }
        assert(entry_view(t@[i as int]) == (if before[i as int].0 == e.0 { e } else { before[i as int] }));
        i = i + 1;
    }
    if !found {
        t.push((key, value));
        assert(!has_key(before, e.0));
        assert(table_view(t@) =~= before.push(e));
    } else {
        assert(has_key(before, e.0));
        assert(table_view(t@) =~= before.map_values(|p: Entry| if p.0 == e.0 { e } else { p }));
    }
}


/// The value stored under `k`, if any.
pub open spec fn lookup<V>(t: Seq<(Seq<char>, V)>, k: Seq<char>) -> Option<V> {
    if has_key(t, k) {
        Some(t[choose|i: int| 0 <= i < t.len() && t[i].0 == k].1)
    } else {
        None
    }
}

pub proof fn lemma_lookup_at<V>(t: Seq<(Seq<char>, V)>, i: int)
    requires
        unique_keys(t),
        0 <= i < t.len(),
    ensures
        lookup(t, t[i].0) == Some(t[i].1),
{
    let k = t[i].0;
    assert(0 <= i < t.len() && t[i].0 == k);
    let j = choose|j: int| 0 <= j < t.len() && t[j].0 == k;
    if j < i {
        assert(t[j].0 != t[i].0);
    } else if j > i {
        assert(t[i].0 != t[j].0);
    }
}

pub proof fn lemma_lookup_insert<V>(t: Seq<(Seq<char>, V)>, e: (Seq<char>, V), k: Seq<char>)
    requires
        unique_keys(t),
    ensures
        unique_keys(table_insert(t, e)),
        lookup(table_insert(t, e), k) == if k == e.0 { Some(e.1) } else { lookup(t, k) },
{
    lemma_insert_keeps_unique(t, e);
    let r = table_insert(t, e);
    if has_key(r, k) {
        let i = choose|i: int| 0 <= i < r.len() && r[i].0 == k;
        lemma_lookup_at(r, i);
        if k != e.0 {
            assert(t[i].0 == k);
            lemma_lookup_at(t, i);
        }
    } else {
        if k == e.0 {
            if has_key(t, e.0) {
                let i = choose|i: int| 0 <= i < t.len() && t[i].0 == k;
                assert(r[i].0 == k);
            } else {
                assert(r[t.len() as int].0 == k);
            }
        } else if has_key(t, k) {
            let i = choose|i: int| 0 <= i < t.len() && t[i].0 == k;
            assert(r[i].0 == k);
        }
    }
}


pub open spec fn keyed_view<V>(t: Seq<(String, V)>) -> Seq<(Seq<char>, V)> {
    t.map_values(|e: (String, V)| (e.0@, e.1))
}

/// Inserts `key` with `value`, replacing the value of an entry with the same key.
pub fn insert_keyed<V: Copy>(t: &mut Vec<(String, V)>, key: &String, value: V)
    ensures
        keyed_view(final(t)@) == table_insert(keyed_view(old(t)@), (key@, value)),
{
    let ghost before = keyed_view(t@);
    let ghost e = (key@, value);
    let n = t.len();
    let mut found = false;
    let mut i: usize = 0;
    while i < n
        invariant
            n == t@.len(),
            n == before.len(),
            e == (key@, value),
            i <= n,
            found == (exists|j: int| 0 <= j < i && before[j].0 == e.0),
            forall|j: int|
                0 <= j < i ==> (#[trigger] t@[j].0@, t@[j].1) == (if before[j].0 == e.0 {
                    e
                } else {
                    before[j]
                }),
            forall|j: int| i <= j < n ==> (#[trigger] t@[j].0@, t@[j].1) == before[j],
        decreases n - i,
    {
        assert((t@[i as int].0@, t@[i as int].1) == before[i as int]);
        if t[i].0.eq(key) {
            t.set(i, (key.clone(), value));
            found = true;
        }
        i = i + 1;
    }
    if !found {
        t.push((key.clone(), value));
        assert(!has_key(before, e.0));
        assert(keyed_view(t@) =~= before.push(e));
    } else {
        assert(has_key(before, e.0));
        assert(keyed_view(t@) =~= before.map_values(|p: (Seq<char>, V)| if p.0 == e.0 { e } else { p }));
    }
}

/// The table without the entries under `k`.
pub open spec fn without_key<V>(t: Seq<(Seq<char>, V)>, k: Seq<char>) -> Seq<(Seq<char>, V)> {
    t.filter(|e: (Seq<char>, V)| e.0 != k)
}

/// Removes every entry under `key`.
pub fn remove_keyed<V: Copy>(t: &mut Vec<(String, V)>, key: &String)
    ensures
        keyed_view(final(t)@) == without_key(keyed_view(old(t)@), key@),
{
    let ghost before = keyed_view(t@);
    let mut kept: Vec<(String, V)> = Vec::new();
    let n = t.len();
    let mut i: usize = 0;
    while i < n
        invariant
            n == before.len(),
            before == keyed_view(t@),
            i <= n,
            keyed_view(kept@) == before.subrange(0, i as int).filter(|e: (Seq<char>, V)| e.0 != key@),
        decreases n - i,
    {
        assert(before.subrange(0, i + 1).drop_last() =~= before.subrange(0, i as int));
        assert(before[i as int] == (t@[i as int].0@, t@[i as int].1));
        assert(before.subrange(0, i + 1).last() == before[i as int]);
        reveal_with_fuel(Seq::filter, 1);
        if !t[i].0.eq(key) {
            let ghost k = kept@;
            kept.push((t[i].0.clone(), t[i].1));
            assert(keyed_view(kept@) =~= keyed_view(k).push(before[i as int]));
        }
        i = i + 1;
    }
    assert(before.subrange(0, n as int) =~= before);
    *t = kept;
    assert(keyed_view(t@) == without_key(before, key@));
}

} // verus!
