//! Maps that are keyed by text.

use vstd::prelude::*;

use crate::order::in_order;
use crate::order::law_finite_set_is_listed_in_order;
use crate::order::sorted;
use crate::order::text_at_most;
use crate::text::same_text;
use crate::text::texts;

verus! {

/// Whether no two of `pairs` have the same key.
pub open spec fn keys_differ<T>(pairs: Seq<(Seq<char>, T)>) -> bool {
    forall|i: int, j: int|
        0 <= i < j < pairs.len() ==> (#[trigger] pairs[i]).0 != (#[trigger] pairs[j]).0
}

/// The map that `pairs` lists.
pub open spec fn map_of<T>(pairs: Seq<(Seq<char>, T)>) -> Map<Seq<char>, T>
    decreases pairs.len(),
{
    if pairs.len() == 0 {
        Map::empty()
    } else {
        map_of(pairs.drop_last()).insert(pairs.last().0, pairs.last().1)
    }
}

/// Where no key occurs twice, the map holds exactly the pairs.
pub proof fn lemma_map_of<T>(pairs: Seq<(Seq<char>, T)>)
    requires
        keys_differ(pairs),
    ensures
        forall|k: Seq<char>| #[trigger]
            map_of(pairs).contains_key(k) ==> exists|i: int|
                0 <= i < pairs.len() && (#[trigger] pairs[i]).0 == k,
        forall|i: int|
            0 <= i < pairs.len() ==> {
                &&& map_of(pairs).contains_key((#[trigger] pairs[i]).0)
                &&& map_of(pairs)[pairs[i].0] == pairs[i].1
            },
    decreases pairs.len(),
{
    if pairs.len() > 0 {
        let front = pairs.drop_last();
        assert(keys_differ(front)) by {
            assert forall|i: int, j: int| 0 <= i < j < front.len() implies (#[trigger] front[i]).0
                != (#[trigger] front[j]).0 by {
                assert(pairs[i].0 != pairs[j].0);
            }
        }
        lemma_map_of(front);
        assert forall|k: Seq<char>| #[trigger] map_of(pairs).contains_key(k) implies exists|i: int|
            0 <= i < pairs.len() && (#[trigger] pairs[i]).0 == k by {
            if k != pairs.last().0 {
                assert(map_of(front).contains_key(k));
                let i = choose|i: int| 0 <= i < front.len() && (#[trigger] front[i]).0 == k;
                assert(pairs[i].0 == k);
            } else {
                assert(pairs[pairs.len() - 1].0 == k);
            }
        }
        assert forall|i: int| 0 <= i < pairs.len() implies {
            &&& map_of(pairs).contains_key((#[trigger] pairs[i]).0)
            &&& map_of(pairs)[pairs[i].0] == pairs[i].1
        } by {
            if i < pairs.len() - 1 {
                assert(front[i] == pairs[i]);
                assert(pairs[i].0 != pairs[pairs.len() - 1].0);
            }
        }
    }
}

/// A list makes a finite map.
pub proof fn lemma_map_of_is_finite<T>(pairs: Seq<(Seq<char>, T)>)
    ensures
        map_of(pairs).dom().finite(),
    decreases pairs.len(),
{
    if pairs.len() > 0 {
        lemma_map_of_is_finite(pairs.drop_last());
    }
}

/// A map from texts to values. It can be walked in an order of its own, which a
/// change may alter in any way.
pub struct TextMap<V: View> {
    entries: Vec<(String, V)>,
}

impl<V: View> View for TextMap<V> {
    type V = Map<Seq<char>, V::V>;

    open spec fn view(&self) -> Map<Seq<char>, V::V> {
        map_of(self.pairs())
    }
}

impl<V: View> TextMap<V> {
    /// The keys and values, each key once, in the order in which the map is walked.
    pub closed spec fn pairs(&self) -> Seq<(Seq<char>, V::V)> {
        self.entries@.map_values(|e: (String, V)| (e.0@, e.1@))
    }

    #[verifier::type_invariant]
    spec fn well_formed(&self) -> bool {
        keys_differ(self.pairs())
    }

    /// The empty map.
    pub fn new() -> (map: Self)
        ensures
            map@ == Map::<Seq<char>, V::V>::empty(),
            map.pairs() == Seq::<(Seq<char>, V::V)>::empty(),
    {
        let entries: Vec<(String, V)> = Vec::new();
        TextMap { entries }
    }

    /// How many keys the map has.
    pub fn len(&self) -> (n: usize)
        ensures
            n == self.pairs().len(),
            keys_differ(self.pairs()),
    {
        proof {
            use_type_invariant(self);
        }
        self.entries.len()
    }

    /// The key at place `i` of the walk, with its value.
    pub fn entry(&self, i: usize) -> (entry: (&String, &V))
        requires
            i < self.pairs().len(),
        ensures
            (entry.0@, entry.1@) == self.pairs()[i as int],
    {
        (&self.entries[i].0, &self.entries[i].1)
    }

    /// The place of `key`, if the map has it.
    fn position(&self, key: &str) -> (place: Option<usize>)
        ensures
            match place {
                Some(i) => i < self.entries@.len() && self.pairs()[i as int].0 == key@
                    && self@.contains_key(key@) && self@[key@] == self.pairs()[i as int].1,
                None => !self@.contains_key(key@),
            },
    {
        proof {
            use_type_invariant(self);
            lemma_map_of(self.pairs());
        }
        let mut i: usize = 0;
        while i < self.entries.len()
            invariant
                i <= self.entries@.len(),
                forall|j: int| 0 <= j < i ==> (#[trigger] self.pairs()[j]).0 != key@,
                forall|j: int|
                    0 <= j < self.pairs().len() ==> {
                        &&& self@.contains_key((#[trigger] self.pairs()[j]).0)
                        &&& self@[self.pairs()[j].0] == self.pairs()[j].1
                    },
            decreases self.entries@.len() - i,
        {
            assert(self.pairs()[i as int].0 == self.entries@[i as int].0@);
            if same_text(self.entries[i].0.as_str(), key) {
                return Some(i);
            }
            i += 1;
        }
        proof {
            lemma_map_of(self.pairs());
        }
        None
    }

    /// The value of `key`.
    pub fn get(&self, key: &str) -> (value: Option<&V>)
        ensures
            match value {
                Some(v) => self@.contains_key(key@) && v@ == self@[key@],
                None => !self@.contains_key(key@),
            },
    {
        match self.position(key) {
            Some(i) => Some(&self.entries[i].1),
            None => None,
        }
    }

    /// Whether the map has `key`.
    pub fn contains_key(&self, key: &str) -> (found: bool)
        ensures
            found == self@.contains_key(key@),
    {
        self.position(key).is_some()
    }

    /// Gives `key` the value `value`, whether or not it had one.
    pub fn insert(&mut self, key: String, value: V)
        ensures
            final(self)@ == old(self)@.insert(key@, value@),
    {
        let place: Option<usize> = self.position(key.as_str());
        let ghost before = self.pairs();
        proof {
            use_type_invariant(&*self);
            lemma_map_of(before);
        }
        let mut entries: Vec<(String, V)> = Vec::new();
        core::mem::swap(&mut entries, &mut self.entries);
        let ghost (k, v) = (key@, value@);
        match place {
            Some(i) => {
                entries.set(i, (key, value));
                proof {
                    let after = TextMap { entries }.pairs();
                    assert(after =~= before.update(i as int, (k, v)));
                    lemma_map_of_update(before, i as int, v);
                }
            },
            None => {
                entries.push((key, value));
                proof {
                    let after = TextMap { entries }.pairs();
                    assert(after =~= before.push((k, v)));
                    assert(after.drop_last() =~= before);
                    assert forall|i: int, j: int| 0 <= i < j < after.len() implies (
                    #[trigger] after[i]).0 != (#[trigger] after[j]).0 by {
                        assert(after[i] == before[i]);
                        assert(map_of(before).contains_key(before[i].0));
                    }
                }
            },
        }
        self.entries = entries;
    }

    /// Gives `key` the value `value` unless it has one.
    pub fn insert_if_absent(&mut self, key: String, value: V)
        ensures
            final(self)@ == if old(self)@.contains_key(key@) {
                old(self)@
            } else {
                old(self)@.insert(key@, value@)
            },
    {
        if !self.contains_key(key.as_str()) {
            self.insert(key, value);
        }
    }

    /// Takes over all of `other`; where both have a key, the value of `other` stays.
    pub fn extend(&mut self, other: TextMap<V>)
        ensures
            final(self)@ == old(self)@.union_prefer_right(other@),
    {
        let ghost pairs = other.pairs();
        let ghost before = self@;
        assert(before.union_prefer_right(map_of(pairs.take(0))) =~= before);
        let entries: Vec<(String, V)> = other.entries;
        for entry in it: entries
            invariant
                it.seq().map_values(|e: (String, V)| (e.0@, e.1@)) == pairs,
                self@ == before.union_prefer_right(map_of(pairs.take(it.index() as int))),
        {
            let ghost i = it.index();
            let ghost (k, v) = (entry.0@, entry.1@);
            self.insert(entry.0, entry.1);
            proof {
                assert(pairs[i as int] == (k, v));
                assert(pairs.take(i + 1).drop_last() =~= pairs.take(i as int));
                assert(self@ =~= before.union_prefer_right(map_of(pairs.take(i + 1))));
            }
        }
        assert(pairs.take(pairs.len() as int) =~= pairs);
    }

    /// The keys in the order of their bytes.
    pub fn sorted_keys(&self) -> (keys: Vec<String>)
        ensures
            texts(keys@) == in_order(self@.dom()),
    {
        proof {
            use_type_invariant(self);
            lemma_map_of(self.pairs());
        }
        let mut keys: Vec<String> = Vec::new();
        for i in 0..self.entries.len()
            invariant
                keys@.len() == i,
                forall|j: int| 0 <= j < i ==> (#[trigger] keys@[j])@ == self.pairs()[j].0,
        {
            keys.push(self.entries[i].0.clone());
        }
        proof {
            let list = texts(keys@);
            assert forall|i: int, j: int|
                0 <= i < list.len() && 0 <= j < list.len() && i != j implies list[i]
                != list[j] by {
                assert(list[i] == keys@[i]@ && list[j] == keys@[j]@);
            }
            assert(list.to_set() =~= self@.dom()) by {
                assert forall|k: Seq<char>| list.to_set().contains(k) <==> self@.dom().contains(
                    k,
                ) by {
                    if list.contains(k) {
                        let i = choose|i: int| 0 <= i < list.len() && list[i] == k;
                        assert(keys@[i]@ == self.pairs()[i].0);
                    }
                    if self@.contains_key(k) {
                        let i = choose|i: int|
                            0 <= i < self.pairs().len() && (#[trigger] self.pairs()[i]).0 == k;
                        assert(keys@[i]@ == k);
                        assert(list[i] == k);
                    }
                }
            }
        }
        sorted(&keys)
    }
}

/// Changing the value at one place changes the map at that key.
proof fn lemma_map_of_update<T>(pairs: Seq<(Seq<char>, T)>, i: int, v: T)
    requires
        keys_differ(pairs),
        0 <= i < pairs.len(),
    ensures
        keys_differ(pairs.update(i, (pairs[i].0, v))),
        map_of(pairs.update(i, (pairs[i].0, v))) == map_of(pairs).insert(pairs[i].0, v),
{
    let after = pairs.update(i, (pairs[i].0, v));
    assert forall|a: int, b: int| 0 <= a < b < after.len() implies (#[trigger] after[a]).0 != (
    #[trigger] after[b]).0 by {
        assert(after[a].0 == pairs[a].0 && after[b].0 == pairs[b].0);
    }
    lemma_map_of(pairs);
    lemma_map_of(after);
    let x = map_of(after);
    let y = map_of(pairs).insert(pairs[i].0, v);
    assert forall|k: Seq<char>| x.contains_key(k) <==> y.contains_key(k) by {
        if x.contains_key(k) {
            let j = choose|j: int| 0 <= j < after.len() && (#[trigger] after[j]).0 == k;
            assert(pairs[j].0 == k);
        }
        if y.contains_key(k) {
            if k == pairs[i].0 {
                assert(after[i].0 == k);
            } else {
                let j = choose|j: int| 0 <= j < pairs.len() && (#[trigger] pairs[j]).0 == k;
                assert(after[j].0 == k);
            }
        }
    }
    assert forall|k: Seq<char>| x.contains_key(k) implies x[k] == y[k] by {
        let j = choose|j: int| 0 <= j < after.len() && (#[trigger] after[j]).0 == k;
        assert(x[k] == after[j].1);
        if j != i {
            assert(pairs[j] == after[j]);
            assert(map_of(pairs)[pairs[j].0] == pairs[j].1);
            assert(after[i].0 == pairs[i].0);
        } else {
            assert(after[i].0 == pairs[i].0);
        }
    }
    assert(x =~= y);
}

/// A value is found under the key that it was given, and the other keys keep theirs.
pub proof fn law_insert_then_get<V: View>(
    map: &mut TextMap<V>,
    key: String,
    value: V,
    after: &TextMap<V>,
    sought: &str,
    found: Option<&V>,
)
    requires
        call_ensures(TextMap::<V>::insert, (map, key, value), ()),
        *after == *final(map),
        call_ensures(TextMap::<V>::get, (after, sought), found),
    ensures
        sought@ == key@ ==> (found matches Some(v) && v@ == value@),
        sought@ != key@ ==> match found {
            Some(v) => old(map)@.contains_key(sought@) && v@ == old(map)@[sought@],
            None => !old(map)@.contains_key(sought@),
        },
{
}

/// Where a key has a value, that stays; and where it has none, it is given one.
pub proof fn law_insert_if_absent<V: View>(map: &mut TextMap<V>, key: String, value: V)
    requires
        call_ensures(TextMap::<V>::insert_if_absent, (map, key, value), ()),
    ensures
        old(map)@.contains_key(key@) ==> final(map)@ == old(map)@,
        !old(map)@.contains_key(key@) ==> final(map)@ == old(map)@.insert(key@, value@),
{
}

/// All keys of both maps are there, with the values of the second where it has one.
pub proof fn law_extend<V: View>(map: &mut TextMap<V>, other: TextMap<V>, key: Seq<char>)
    requires
        call_ensures(TextMap::<V>::extend, (map, other), ()),
    ensures
        final(map)@.contains_key(key) <==> old(map)@.contains_key(key) || other@.contains_key(key),
        other@.contains_key(key) ==> final(map)@[key] == other@[key],
        old(map)@.contains_key(key) && !other@.contains_key(key) ==> final(map)@[key] == old(
            map,
        )@[key],
{
}

/// The sorted keys are the keys of the map, each once and in the order of their bytes.
pub proof fn law_sorted_keys<V: View>(map: &TextMap<V>, keys: Vec<String>)
    requires
        call_ensures(TextMap::<V>::sorted_keys, (map,), keys),
    ensures
        forall|k: Seq<char>| #[trigger] texts(keys@).contains(k) <==> map@.contains_key(k),
        texts(keys@).no_duplicates(),
        forall|i: int, j: int|
            #![trigger keys@[i], keys@[j]]
            0 <= i < j < keys@.len() ==> text_at_most(keys@[i]@, keys@[j]@),
{
    lemma_map_of_is_finite(map.pairs());
    law_finite_set_is_listed_in_order(map@.dom());
    let list = texts(keys@);
    assert forall|k: Seq<char>| #[trigger] list.contains(k) <==> map@.contains_key(k) by {
        assert(list.contains(k) <==> map@.dom().contains(k));
    }
    assert forall|i: int, j: int|
        #![trigger keys@[i], keys@[j]]
        0 <= i < j < keys@.len() implies text_at_most(keys@[i]@, keys@[j]@) by {
        assert(list[i] == keys@[i]@ && list[j] == keys@[j]@);
    }
}

} // verus!
