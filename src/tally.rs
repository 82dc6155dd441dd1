use vstd::prelude::*;

verus! {

/// The keys of an association list, in order.
pub open spec fn keys_of<K, V>(s: Seq<(K, V)>) -> Seq<K> {
    s.map_values(|e: (K, V)| e.0)
}

/// Whether no key occurs twice in an association list.
pub open spec fn keys_unique<K, V>(s: Seq<(K, V)>) -> bool {
    keys_of(s).no_duplicates()
}

/// The map that an association list stands for: each key to its value.
pub open spec fn assoc_map<K, V>(s: Seq<(K, V)>) -> Map<K, V>
    decreases s.len(),
{
    if s.len() == 0 {
        Map::empty()
    } else {
        assoc_map(s.drop_last()).insert(s.last().0, s.last().1)
    }
}

/// The keys of the map are those of the list.
pub proof fn lemma_assoc_map_dom<K, V>(s: Seq<(K, V)>)
    ensures
        assoc_map(s).dom() == keys_of(s).to_set(),
    decreases s.len(),
{
    if s.len() > 0 {
        lemma_assoc_map_dom(s.drop_last());
        assert(keys_of(s) =~= keys_of(s.drop_last()).push(s.last().0));
        keys_of(s.drop_last()).lemma_push_to_set_commute(s.last().0);
    }
    assert(assoc_map(s).dom() =~= keys_of(s).to_set());
}

/// With unique keys, the map gives each entry's key that entry's value.
pub proof fn lemma_assoc_map_index<K, V>(s: Seq<(K, V)>, i: int)
    requires
        keys_unique(s),
        0 <= i < s.len(),
    ensures
        assoc_map(s).contains_key(s[i].0),
        assoc_map(s)[s[i].0] == s[i].1,
    decreases s.len(),
{
    if i < s.len() - 1 {
        let d = s.drop_last();
        assert(keys_of(d) =~= keys_of(s).drop_last());
        assert(keys_of(s)[i] == s[i].0 && keys_of(s)[s.len() - 1] == s.last().0);
        lemma_assoc_map_index(d, i);
    }
}

/// With unique keys, a key that no entry holds is not in the map.
pub proof fn lemma_assoc_map_absent<K, V>(s: Seq<(K, V)>, k: K)
    requires
        forall|j: int| 0 <= j < s.len() ==> s[j].0 != k,
    ensures
        !assoc_map(s).contains_key(k),
{
    lemma_assoc_map_dom(s);
    if keys_of(s).contains(k) {
        let j = choose|j: int| 0 <= j < keys_of(s).len() && keys_of(s)[j] == k;
        assert(s[j].0 == k);
    }
}

/// Replacing the value of one entry replaces the value of its key in the map.
pub proof fn lemma_assoc_map_update<K, V>(s: Seq<(K, V)>, i: int, v: V)
    requires
        keys_unique(s),
        0 <= i < s.len(),
    ensures
        keys_unique(s.update(i, (s[i].0, v))),
        assoc_map(s.update(i, (s[i].0, v))) == assoc_map(s).insert(s[i].0, v),
    decreases s.len(),
{
    let t = s.update(i, (s[i].0, v));
    assert(keys_of(t) =~= keys_of(s));
    let d = s.drop_last();
    if i == s.len() - 1 {
        assert(t.drop_last() =~= d);
        assert(assoc_map(t) =~= assoc_map(s).insert(s[i].0, v));
    } else {
        assert(keys_of(d) =~= keys_of(s).drop_last());
        assert(t.drop_last() =~= d.update(i, (s[i].0, v)));
        lemma_assoc_map_update(d, i, v);
        assert(keys_of(s)[i] == s[i].0 && keys_of(s)[s.len() - 1] == s.last().0);
        assert(assoc_map(t) =~= assoc_map(s).insert(s[i].0, v));
    }
}

/// Appending an entry with a new key keeps the keys unique.
pub proof fn lemma_keys_unique_push<K, V>(s: Seq<(K, V)>, e: (K, V))
    requires
        keys_unique(s),
        forall|j: int| 0 <= j < s.len() ==> s[j].0 != e.0,
    ensures
        keys_unique(s.push(e)),
{
    assert(keys_of(s.push(e)) =~= keys_of(s).push(e.0));
}

/// The value of `k` in a map of counts, zero when `k` is absent.
pub open spec fn count_or_zero<K>(m: Map<K, nat>, k: K) -> nat {
    if m.contains_key(k) {
        m[k]
    } else {
        0
    }
}

/// The counts with one added to that of `k`.
pub open spec fn bump<K>(m: Map<K, nat>, k: K) -> Map<K, nat> {
    m.insert(k, count_or_zero(m, k) + 1)
}

/// The view of a list of named counts.
pub open spec fn counts_view(s: Seq<(String, u32)>) -> Seq<(Seq<char>, nat)> {
    s.map_values(|e: (String, u32)| (e.0@, e.1 as nat))
}

/// The position of the entry whose key is `key`, if any.
pub fn find_key<V>(list: &Vec<(String, V)>, key: &String) -> (r: Option<usize>)
    ensures
        match r {
            Some(i) => i < list.len() && list@[i as int].0@ == key@,
            None => forall|j: int| 0 <= j < list.len() ==> list@[j].0@ != key@,
        },
{
    let mut i: usize = 0;
    while i < list.len()
        invariant
            i <= list.len(),
            forall|j: int| 0 <= j < i ==> list@[j].0@ != key@,
        decreases list.len() - i,
    {
        if list[i].0 == *key {
            return Some(i);
        }
        i = i + 1;
    }
    None
}

/// Adds one to the count of `key`, adding the key with count one when it is missing.
pub fn bump_count(list: &mut Vec<(String, u32)>, key: &String)
    requires
        keys_unique(counts_view(old(list)@)),
        count_or_zero(assoc_map(counts_view(old(list)@)), key@) < u32::MAX,
    ensures
        keys_unique(counts_view(final(list)@)),
        assoc_map(counts_view(final(list)@)) == bump(assoc_map(counts_view(old(list)@)), key@),
{
    let ghost s = counts_view(list@);
    match find_key(list, key) {
        Some(i) => {
            proof {
                lemma_assoc_map_index(s, i as int);
                lemma_assoc_map_update(s, i as int, (list@[i as int].1 + 1) as nat);
            }
            let c = list[i].1;
            list.set(i, (key.clone(), c + 1));
            assert(counts_view(list@) =~= s.update(i as int, (s[i as int].0, (c + 1) as nat)));
        },
        None => {
            proof {
                lemma_assoc_map_absent(s, key@);
                lemma_keys_unique_push(s, (key@, 1nat));
            }
            list.push((key.clone(), 1));
            assert(counts_view(list@) =~= s.push((key@, 1nat)));
            assert(s.push((key@, 1nat)).drop_last() =~= s);
        },
    }
}

} // verus!
