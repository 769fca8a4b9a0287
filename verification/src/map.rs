//! A map from texts to values that can be walked in a fixed order.
use vstd::prelude::*;

use crate::text::same;

verus! {

/// The map that a list of keys and values stands for. Of two entries with one
/// key the later one counts.
pub open spec fn map_of<A>(items: Seq<(Seq<char>, A)>) -> Map<Seq<char>, A>
    decreases items.len(),
{
    if items.len() == 0 {
        Map::empty()
    } else {
        map_of(items.drop_last()).insert(items.last().0, items.last().1)
    }
}

/// Whether no key occurs twice in a list.
pub open spec fn distinct_keys<A>(items: Seq<(Seq<char>, A)>) -> bool {
    forall|i: int, j: int| 0 <= i < j < items.len() ==> items[i].0 != items[j].0
}

/// A key is in the map exactly when it is in the list.
pub proof fn lemma_map_of_keys<A>(items: Seq<(Seq<char>, A)>, key: Seq<char>)
    ensures
        map_of(items).contains_key(key) <==> exists|i: int|
            0 <= i < items.len() && #[trigger] items[i].0 == key,
    decreases items.len(),
{
    if items.len() > 0 {
        let front = items.drop_last();
        lemma_map_of_keys(front, key);
        if map_of(items).contains_key(key) {
            if items.last().0 == key {
                assert(items[items.len() - 1].0 == key);
            } else {
                let i = choose|i: int| 0 <= i < front.len() && #[trigger] front[i].0 == key;
                assert(items[i].0 == key);
            }
        }
        if exists|i: int| 0 <= i < items.len() && #[trigger] items[i].0 == key {
            let i = choose|i: int| 0 <= i < items.len() && #[trigger] items[i].0 == key;
            if i < front.len() {
                assert(front[i].0 == key);
            }
        }
    }
}

/// In a list without repeated keys each entry is one of the map.
pub proof fn lemma_map_of_entry<A>(items: Seq<(Seq<char>, A)>, i: int)
    requires
        distinct_keys(items),
        0 <= i < items.len(),
    ensures
        map_of(items).contains_key(items[i].0),
        map_of(items)[items[i].0] == items[i].1,
    decreases items.len(),
{
    let front = items.drop_last();
    if i < front.len() {
        assert(distinct_keys(front));
        lemma_map_of_entry(front, i);
        assert(front[i] == items[i]);
        assert(items[i].0 != items[items.len() - 1].0);
    }
}

/// Replacing the value of one entry replaces it in the map.
proof fn lemma_map_of_update<A>(items: Seq<(Seq<char>, A)>, i: int, value: A)
    requires
        distinct_keys(items),
        0 <= i < items.len(),
    ensures
        distinct_keys(items.update(i, (items[i].0, value))),
        map_of(items.update(i, (items[i].0, value))) == map_of(items).insert(items[i].0, value),
    decreases items.len(),
{
    let changed = items.update(i, (items[i].0, value));
    assert(distinct_keys(changed)) by {
        assert forall|a: int, b: int| 0 <= a < b < changed.len() implies changed[a].0
            != changed[b].0 by {
            assert(items[a].0 != items[b].0);
        }
    }
    let front = items.drop_last();
    if i == front.len() {
        assert(changed.drop_last() == front);
        assert(map_of(changed) == map_of(items).insert(items[i].0, value));
    } else {
        assert(distinct_keys(front));
        lemma_map_of_update(front, i, value);
        assert(changed.drop_last() == front.update(i, (front[i].0, value)));
        assert(items[i].0 != items[items.len() - 1].0);
        assert(map_of(changed) == map_of(items).insert(items[i].0, value));
    }
}

/// A map from texts to values. Its entries keep the order in which their keys
/// came, and no key occurs twice.
pub struct TextMap<V: DeepView> {
    entries: Vec<(String, V)>,
}

impl<V: DeepView> View for TextMap<V> {
    type V = Map<Seq<char>, V::V>;

    open spec fn view(&self) -> Map<Seq<char>, V::V> {
        map_of(self.items())
    }
}

impl<V: DeepView> DeepView for TextMap<V> {
    type V = Map<Seq<char>, V::V>;

    open spec fn deep_view(&self) -> Map<Seq<char>, V::V> {
        self@
    }
}

impl<V: DeepView> TextMap<V> {
    /// The entries in their order.
    pub closed spec fn items(&self) -> Seq<(Seq<char>, V::V)> {
        self.entries@.map_values(|e: (String, V)| (e.0@, e.1.deep_view()))
    }

    #[verifier::type_invariant]
    spec fn keys_differ(self) -> bool {
        distinct_keys(self.items())
    }

    /// The map without any entry.
    pub fn new() -> (r: Self)
        ensures
            r.items() == Seq::<(Seq<char>, V::V)>::empty(),
            r@ == Map::<Seq<char>, V::V>::empty(),
    {
        let r = TextMap { entries: Vec::new() };
        assert(r.items() == Seq::<(Seq<char>, V::V)>::empty());
        r
    }

    /// The number of keys.
    pub fn len(&self) -> (r: usize)
        ensures
            r == self.items().len(),
            distinct_keys(self.items()),
    {
        proof {
            use_type_invariant(self);
        }
        self.entries.len()
    }

    /// The key of one entry.
    pub fn key_at(&self, i: usize) -> (r: &str)
        requires
            i < self.items().len(),
        ensures
            r@ == self.items()[i as int].0,
    {
        self.entries[i].0.as_str()
    }

    /// The value of one entry.
    pub fn value_at(&self, i: usize) -> (r: &V)
        requires
            i < self.items().len(),
        ensures
            r.deep_view() == self.items()[i as int].1,
    {
        &self.entries[i].1
    }

    /// The place of a key, or the number of keys when it is not there.
    fn place(&self, key: &str) -> (r: usize)
        ensures
            r <= self.items().len(),
            r < self.items().len() ==> self.items()[r as int].0 == key@,
            r == self.items().len() ==> forall|j: int|
                0 <= j < self.items().len() ==> (#[trigger] self.items()[j]).0 != key@,
    {
        let n: usize = self.entries.len();
        let mut i: usize = 0;
        while i < n
            invariant
                i <= n,
                n == self.entries@.len(),
                n == self.items().len(),
                forall|j: int| 0 <= j < i ==> (#[trigger] self.items()[j]).0 != key@,
            decreases n - i,
        {
            if same(self.entries[i].0.as_str(), key) {
                return i;
            }
            assert(self.items()[i as int].0 == self.entries@[i as int].0@);
            i += 1;
        }
        n
    }

    /// The value of a key.
    pub fn get(&self, key: &str) -> (r: Option<&V>)
        ensures
            r is Some <==> self@.contains_key(key@),
            r matches Some(v) ==> v.deep_view() == self@[key@],
    {
        proof {
            use_type_invariant(self);
            lemma_map_of_keys(self.items(), key@);
        }
        let i: usize = self.place(key);
        if i < self.entries.len() {
            proof {
                lemma_map_of_entry(self.items(), i as int);
            }
            Some(&self.entries[i].1)
        } else {
            None
        }
    }

    /// Gives a key a value, in place of the one that it may have.
    pub fn insert(&mut self, key: String, value: V)
        ensures
            final(self)@ == old(self)@.insert(key@, value.deep_view()),
    {
        proof {
            use_type_invariant(&*self);
        }
        let i: usize = self.place(key.as_str());
        let ghost before = self.items();
        let mut entries: Vec<(String, V)> = Vec::new();
        std::mem::swap(&mut entries, &mut self.entries);
        let ghost held = entries@;
        if i < entries.len() {
            entries.set(i, (key, value));
            let ghost changed = entries@.map_values(|e: (String, V)| (e.0@, e.1.deep_view()));
            proof {
                lemma_map_of_update(before, i as int, value.deep_view());
                assert(changed == before.update(i as int, (before[i as int].0, value.deep_view())));
            }
        } else {
            entries.push((key, value));
            let ghost changed = entries@.map_values(|e: (String, V)| (e.0@, e.1.deep_view()));
            proof {
                assert(changed == before.push((key@, value.deep_view())));
                assert(changed.drop_last() == before);
                assert(distinct_keys(changed)) by {
                    assert forall|a: int, b: int| 0 <= a < b < changed.len() implies changed[a].0
                        != changed[b].0 by {
                        assert(before[a].0 != key@);
                        if b < before.len() {
                            assert(before[a].0 != before[b].0);
                        }
                    }
                }
            }
        }
        self.entries = entries;
    }

    /// The entries themselves, in their order.
    pub fn into_entries(self) -> (r: Vec<(String, V)>)
        ensures
            r@.map_values(|e: (String, V)| (e.0@, e.1.deep_view())) == self.items(),
    {
        self.entries
    }
}

} // verus!
