use vstd::prelude::*;

use crate::tally::{assoc_map, bump, bump_count, count_or_zero, counts_view, keys_unique, keys_of};

verus! {

/// How often each key occurs in a sequence of keys.
pub open spec fn occurrences(keys: Seq<Seq<char>>) -> Map<Seq<char>, nat>
    decreases keys.len(),
{
    if keys.len() == 0 {
        Map::empty()
    } else {
        bump(occurrences(keys.drop_last()), keys.last())
    }
}

/// No key occurs more often than there are keys.
proof fn lemma_occurrences_bounded(keys: Seq<Seq<char>>, k: Seq<char>)
    ensures
        count_or_zero(occurrences(keys), k) <= keys.len(),
    decreases keys.len(),
{
    if keys.len() > 0 {
        lemma_occurrences_bounded(keys.drop_last(), k);
    }
}

/// Whether `keys` are what `f` returned for each of `items`, in order.
pub open spec fn keyed_by<T, F: Fn(&T) -> String>(f: F, items: Seq<T>, keys: Seq<String>) -> bool {
    &&& keys.len() == items.len()
    &&& forall|i: int| 0 <= i < items.len() ==> f.ensures((&items[i],), #[trigger] keys[i])
}

/// Each key of a list of key-value pairs, with the number of pairs that carry it.
pub fn count_by<V>(pairs: &Vec<(String, V)>) -> (r: Vec<(String, u32)>)
    requires
        pairs.len() <= u32::MAX,
    ensures
        keys_unique(counts_view(r@)),
        assoc_map(counts_view(r@)) == occurrences(pairs@.map_values(|e: (String, V)| e.0@)),
{
    let ghost keys = pairs@.map_values(|e: (String, V)| e.0@);
    let mut counts: Vec<(String, u32)> = Vec::new();
    let mut i: usize = 0;
    assert(keys_of(counts_view(counts@)) =~= seq![]);
    assert(assoc_map(counts_view(counts@)) =~= Map::empty());
    assert(keys.take(0) =~= seq![]);
    while i < pairs.len()
        invariant
            i <= pairs.len() <= u32::MAX,
            keys == pairs@.map_values(|e: (String, V)| e.0@),
            keys_unique(counts_view(counts@)),
            assoc_map(counts_view(counts@)) == occurrences(keys.take(i as int)),
        decreases pairs.len() - i,
    {
        let key = &pairs[i].0;
        proof {
            lemma_occurrences_bounded(keys.take(i as int), key@);
        }
        bump_count(&mut counts, key);
        assert(keys.take(i + 1).drop_last() =~= keys.take(i as int));
        i = i + 1;
    }
    assert(keys.take(pairs.len() as int) =~= keys);
    counts
}

/// Counting the items of a collection by a key.
pub trait CountBy<T> {
    /// The items, in order.
    spec fn items(&self) -> Seq<T>;

    /// Each key that `f` gives to an item, with the number of items that get it.
    fn count_by_key<F: Fn(&T) -> String>(&self, f: F) -> (r: Vec<(String, u32)>)
        requires
            self.items().len() <= u32::MAX,
            forall|i: int| 0 <= i < self.items().len() ==> f.requires((&self.items()[i],)),
        ensures
            keys_unique(counts_view(r@)),
            exists|keys: Seq<String>|
                #[trigger] keyed_by(f, self.items(), keys) && assoc_map(counts_view(r@))
                    == occurrences(keys.map_values(|s: String| s@)),
    ;
}

impl<T> CountBy<T> for Vec<T> {
    open spec fn items(&self) -> Seq<T> {
        self@
    }

    fn count_by_key<F: Fn(&T) -> String>(&self, f: F) -> (r: Vec<(String, u32)>) {
        let mut counts: Vec<(String, u32)> = Vec::new();
        let ghost mut keys: Seq<String> = seq![];
        let mut i: usize = 0;
        assert(keys_of(counts_view(counts@)) =~= seq![]);
        assert(assoc_map(counts_view(counts@)) =~= Map::empty());
        while i < self.len()
            invariant
                i <= self.len() <= u32::MAX,
                forall|j: int| 0 <= j < self.len() ==> f.requires((&self@[j],)),
                keyed_by(f, self@.take(i as int), keys),
                keys_unique(counts_view(counts@)),
                assoc_map(counts_view(counts@)) == occurrences(keys.map_values(|s: String| s@)),
            decreases self.len() - i,
        {
            let key = f(&self[i]);
            proof {
                lemma_occurrences_bounded(keys.map_values(|s: String| s@), key@);
            }
            bump_count(&mut counts, &key);
            proof {
                let views = keys.map_values(|s: String| s@);
                assert(keys.push(key).map_values(|s: String| s@) =~= views.push(key@));
                assert(views.push(key@).drop_last() =~= views);
                keys = keys.push(key);
                assert forall|j: int| 0 <= j < i + 1 implies f.ensures(
                    (&self@.take(i + 1)[j],),
                    #[trigger] keys[j],
                ) by {
                    if j < i {
                        assert(self@.take(i + 1)[j] == self@.take(i as int)[j]);
                    }
                }
            }
            i = i + 1;
        }
        assert(self@.take(self.len() as int) =~= self@);
        counts
    }
}

} // verus!
