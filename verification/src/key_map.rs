//! An ordered map over integer keys, kept as one sorted vector.
use vstd::prelude::*;

verus! {

/// Keys strictly increase along the sequence.
pub open spec fn keys_increase<V>(items: Seq<(u128, V)>) -> bool {
    forall|i: int, j: int| 0 <= i < j < items.len() ==> (#[trigger] items[i]).0 < (
    #[trigger] items[j]).0
}

/// The map that a sequence of keyed items stands for.
pub open spec fn items_map<V>(items: Seq<(u128, V)>) -> Map<u128, V> {
    Map::new(
        |key: u128| exists|i: int| 0 <= i < items.len() && (#[trigger] items[i]).0 == key,
        |key: u128| items[choose|i: int| 0 <= i < items.len() && (#[trigger] items[i]).0 == key].1,
    )
}

/// In a sequence with increasing keys, each item is the map's value at its key.
pub proof fn lemma_items_map<V>(items: Seq<(u128, V)>)
    requires
        keys_increase(items),
    ensures
        forall|i: int| 0 <= i < items.len() ==> items_map(items).contains_key(
            (#[trigger] items[i]).0,
        ) && items_map(items)[items[i].0] == items[i].1,
        forall|key: u128| #[trigger] items_map(items).contains_key(key) ==> exists|i: int|
            0 <= i < items.len() && (#[trigger] items[i]).0 == key,
        items_map(items).dom().finite(),
        items_map(items).dom().len() == items.len(),
{
    let m = items_map(items);
    assert forall|i: int| 0 <= i < items.len() implies m.contains_key((#[trigger] items[i]).0)
        && m[items[i].0] == items[i].1 by {
        let j = choose|j: int| 0 <= j < items.len() && (#[trigger] items[j]).0 == items[i].0;
        assert(j == i);
    }
    let keys = items.map_values(|item: (u128, V)| item.0);
    assert(keys.no_duplicates());
    assert(keys.to_set() =~= m.dom()) by {
        assert forall|key: u128| keys.to_set().contains(key) <==> m.dom().contains(key) by {
            if m.dom().contains(key) {
                let j = choose|j: int| 0 <= j < items.len() && (#[trigger] items[j]).0 == key;
                assert(keys[j] == key);
            }
            if keys.to_set().contains(key) {
                let j = choose|j: int| 0 <= j < keys.len() && keys[j] == key;
                assert(items[j].0 == key);
            }
        }
    }
    keys.unique_seq_to_set();
}

proof fn lemma_update_item<V>(before: Seq<(u128, V)>, at: int, value: V)
    requires
        keys_increase(before),
        0 <= at < before.len(),
    ensures
        keys_increase(before.update(at, (before[at].0, value))),
        items_map(before.update(at, (before[at].0, value))) == items_map(before).insert(
            before[at].0,
            value,
        ),
{
    let after = before.update(at, (before[at].0, value));
    let m = items_map(before).insert(before[at].0, value);
    lemma_items_map(before);
    lemma_items_map(after);
    assert forall|k: u128| #[trigger] items_map(after).contains_key(k) implies m.contains_key(k)
        && items_map(after)[k] == m[k] by {
        let i = choose|i: int| 0 <= i < after.len() && (#[trigger] after[i]).0 == k;
        assert(before[i].0 == k);
    }
    assert forall|k: u128| #[trigger] m.contains_key(k) implies items_map(after).contains_key(k) by {
        if k == before[at].0 {
            assert(after[at].0 == k);
        } else {
            let i = choose|i: int| 0 <= i < before.len() && (#[trigger] before[i]).0 == k;
            assert(after[i].0 == k);
        }
    }
    assert(items_map(after) =~= m);
}

proof fn lemma_insert_item<V>(before: Seq<(u128, V)>, at: int, key: u128, value: V)
    requires
        keys_increase(before),
        0 <= at <= before.len(),
        forall|i: int| 0 <= i < at ==> (#[trigger] before[i]).0 < key,
        forall|i: int| at <= i < before.len() ==> (#[trigger] before[i]).0 > key,
    ensures
        keys_increase(before.insert(at, (key, value))),
        items_map(before.insert(at, (key, value))) == items_map(before).insert(key, value),
{
    let after = before.insert(at, (key, value));
    let m = items_map(before).insert(key, value);
    assert forall|i: int| 0 <= i < at implies #[trigger] after[i] == before[i] by {}
    assert(after[at] == (key, value));
    assert forall|i: int| at < i < after.len() implies #[trigger] after[i] == before[i - 1] by {}
    assert forall|i: int, j: int| 0 <= i < j < after.len() implies (#[trigger] after[i]).0 < (
    #[trigger] after[j]).0 by {
        let bi = if i < at { i } else { i - 1 };
        let bj = if j < at { j } else { j - 1 };
        if i != at {
            assert(after[i] == before[bi]);
        }
        if j != at {
            assert(after[j] == before[bj]);
        }
    }
    lemma_items_map(before);
    lemma_items_map(after);
    assert forall|k: u128| #[trigger] items_map(after).contains_key(k) implies m.contains_key(k)
        && items_map(after)[k] == m[k] by {
        let i = choose|i: int| 0 <= i < after.len() && (#[trigger] after[i]).0 == k;
        if i < at {
            assert(before[i].0 == k);
        } else if i > at {
            assert(before[i - 1].0 == k);
        }
    }
    assert forall|k: u128| #[trigger] m.contains_key(k) implies items_map(after).contains_key(k) by {
        if k == key {
            assert(after[at].0 == k);
        } else {
            let i = choose|i: int| 0 <= i < before.len() && (#[trigger] before[i]).0 == k;
            if i < at {
                assert(after[i].0 == k);
            } else {
                assert(after[i + 1] == before[i]);
            }
        }
    }
    assert(items_map(after) =~= m);
}

/// The items of a map from the smallest key to the largest.
pub open spec fn in_order<V>(map: Map<u128, V>) -> Seq<(u128, V)> {
    choose|items: Seq<(u128, V)>| #[trigger] keys_increase(items) && items_map(items) == map
}

/// A map has one listing in key order.
pub proof fn lemma_one_order<V>(a: Seq<(u128, V)>, b: Seq<(u128, V)>)
    requires
        keys_increase(a),
        keys_increase(b),
        items_map(a) == items_map(b),
    ensures
        a == b,
        a == in_order(items_map(a)),
{
    lemma_same_order(a, b);
    let c = in_order(items_map(a));
    assert(keys_increase(c) && items_map(c) == items_map(a));
    lemma_same_order(a, c);
}

proof fn lemma_same_order<V>(a: Seq<(u128, V)>, b: Seq<(u128, V)>)
    requires
        keys_increase(a),
        keys_increase(b),
        items_map(a) == items_map(b),
    ensures
        a == b,
    decreases a.len(),
{
    lemma_items_map(a);
    lemma_items_map(b);
    if a.len() > 0 {
        let last = a.len() - 1;
        let (ka, kb) = (a[last].0, b[last].0);
        assert(items_map(b).contains_key(ka));
        assert(items_map(a).contains_key(kb));
        let i = choose|i: int| 0 <= i < b.len() && (#[trigger] b[i]).0 == ka;
        let j = choose|j: int| 0 <= j < a.len() && (#[trigger] a[j]).0 == kb;
        assert(ka == kb) by {
            if i < last {
                assert(b[i].0 < b[last].0);
            }
            if j < last {
                assert(a[j].0 < a[last].0);
            }
        }
        assert(a[last].1 == items_map(a)[ka]);
        assert(b[last].1 == items_map(b)[kb]);
        lemma_without_last(a);
        lemma_without_last(b);
        lemma_same_order(a.drop_last(), b.drop_last());
        assert(a =~= a.drop_last().push(a[last]));
        assert(b =~= b.drop_last().push(b[last]));
    }
}

proof fn lemma_without_last<V>(a: Seq<(u128, V)>)
    requires
        keys_increase(a),
        a.len() > 0,
    ensures
        keys_increase(a.drop_last()),
        items_map(a.drop_last()) == items_map(a).remove(a.last().0),
{
    let shorter = a.drop_last();
    assert forall|i: int, j: int| 0 <= i < j < shorter.len() implies (#[trigger] shorter[i]).0 < (
    #[trigger] shorter[j]).0 by {
        assert(a[i].0 < a[j].0);
    }
    lemma_items_map(a);
    lemma_items_map(shorter);
    let m = items_map(a).remove(a.last().0);
    assert forall|k: u128| #[trigger] items_map(shorter).contains_key(k) implies m.contains_key(k)
        && items_map(shorter)[k] == m[k] by {
        let i = choose|i: int| 0 <= i < shorter.len() && (#[trigger] shorter[i]).0 == k;
        assert(a[i].0 == k);
        assert(a[i].0 < a[a.len() - 1].0);
    }
    assert forall|k: u128| #[trigger] m.contains_key(k) implies items_map(shorter).contains_key(
        k,
    ) by {
        let i = choose|i: int| 0 <= i < a.len() && (#[trigger] a[i]).0 == k;
        assert(i < a.len() - 1);
        assert(shorter[i].0 == k);
    }
    assert(items_map(shorter) =~= m);
}

/// A map from `u128` keys whose items can be walked in key order.
#[derive(Debug)]
pub struct KeyMap<V> {
    items: Vec<(u128, V)>,
}

impl<V> View for KeyMap<V> {
    type V = Map<u128, V>;

    open spec fn view(&self) -> Map<u128, V> {
        items_map(self.items_in_order())
    }
}

impl<V> KeyMap<V> {
    #[verifier::type_invariant]
    spec fn wf(self) -> bool {
        keys_increase(self.items@)
    }

    /// The items, from the smallest key to the largest.
    pub closed spec fn items_in_order(&self) -> Seq<(u128, V)> {
        self.items@
    }

    pub fn new() -> (map: KeyMap<V>)
        ensures
            map@ == Map::<u128, V>::empty(),
            map.items_in_order() == Seq::<(u128, V)>::empty(),
    {
        let map = KeyMap { items: Vec::new() };
        assert(map@ =~= Map::<u128, V>::empty());
        map
    }

    pub fn len(&self) -> (n: usize)
        ensures
            n == self.items_in_order().len(),
            n == self@.dom().len(),
            self@.dom().finite(),
            keys_increase(self.items_in_order()),
            self.items_in_order() == in_order(self@),
    {
        proof {
            use_type_invariant(self);
            lemma_items_map(self.items@);
            lemma_one_order(self.items@, self.items@);
        }
        self.items.len()
    }

    /// The key with `index` smaller keys before it.
    pub fn key_at(&self, index: usize) -> (key: u128)
        requires
            index < self.items_in_order().len(),
        ensures
            key == self.items_in_order()[index as int].0,
            self@.contains_key(key),
            self@[key] == self.items_in_order()[index as int].1,
    {
        proof {
            use_type_invariant(self);
            lemma_items_map(self.items@);
        }
        self.items[index].0
    }

    /// The value whose key has `index` smaller keys before it.
    pub fn value_at(&self, index: usize) -> (value: &V)
        requires
            index < self.items_in_order().len(),
        ensures
            *value == self.items_in_order()[index as int].1,
    {
        &self.items[index].1
    }

    /// A copy with the same items.
    pub fn duplicate(&self) -> (copy: KeyMap<V>) where V: Copy
        ensures
            copy.items_in_order() == self.items_in_order(),
            copy@ == self@,
    {
        proof {
            use_type_invariant(self);
        }
        let mut items: Vec<(u128, V)> = Vec::new();
        let mut i: usize = 0;
        while i < self.items.len()
            invariant
                i <= self.items@.len(),
                items@ == self.items@.take(i as int),
            decreases self.items@.len() - i,
        {
            let item = self.items[i];
            items.push(item);
            i += 1;
            assert(self.items@.take(i as int) =~= self.items@.take(i - 1).push(
                self.items@[i - 1],
            ));
        }
        assert(self.items@.take(i as int) =~= self.items@);
        KeyMap { items }
    }

    /// The number of keys below `key`.
    fn rank(&self, key: u128) -> (n: usize)
        ensures
            n <= self.items@.len(),
            forall|i: int| 0 <= i < n ==> (#[trigger] self.items@[i]).0 < key,
            forall|i: int| n <= i < self.items@.len() ==> (#[trigger] self.items@[i]).0 >= key,
    {
        proof {
            use_type_invariant(self);
        }
        let mut lo: usize = 0;
        let mut hi: usize = self.items.len();
        while lo < hi
            invariant
                lo <= hi <= self.items@.len(),
                keys_increase(self.items@),
                forall|i: int| 0 <= i < lo ==> (#[trigger] self.items@[i]).0 < key,
                forall|i: int| hi <= i < self.items@.len() ==> (#[trigger] self.items@[i]).0 >= key,
            decreases hi - lo,
        {
            let mid: usize = lo + (hi - lo) / 2;
            if self.items[mid].0 < key {
                lo = mid + 1;
            } else {
                hi = mid;
            }
        }
        lo
    }

    pub fn get(&self, key: u128) -> (value: Option<&V>)
        ensures
            match value {
                Some(v) => self@.contains_key(key) && *v == self@[key],
                None => !self@.contains_key(key),
            },
    {
        let at: usize = self.rank(key);
        proof {
            use_type_invariant(self);
            lemma_items_map(self.items@);
        }
        if at < self.items.len() && self.items[at].0 == key {
            Some(&self.items[at].1)
        } else {
            None
        }
    }

    pub fn contains(&self, key: u128) -> (r: bool)
        ensures
            r == self@.contains_key(key),
    {
        self.get(key).is_some()
    }

    /// Sets the value at `key`, replacing any earlier one.
    pub fn insert(&mut self, key: u128, value: V)
        ensures
            final(self)@ == old(self)@.insert(key, value),
    {
        let at: usize = self.rank(key);
        proof {
            use_type_invariant(&*self);
            lemma_items_map(self.items@);
        }
        let mut items: Vec<(u128, V)> = Vec::new();
        std::mem::swap(&mut items, &mut self.items);
        let ghost before = items@;
        if at < items.len() && items[at].0 == key {
            items[at] = (key, value);
            proof {
                lemma_update_item(before, at as int, value);
            }
        } else {
            items.insert(at, (key, value));
            proof {
                lemma_insert_item(before, at as int, key, value);
            }
        }
        self.items = items;
    }

    /// Removes the value at `key`, if there is one.
    pub fn remove(&mut self, key: u128)
        ensures
            final(self)@ == old(self)@.remove(key),
    {
        let at: usize = self.rank(key);
        proof {
            use_type_invariant(&*self);
            lemma_items_map(self.items@);
        }
        if at < self.items.len() && self.items[at].0 == key {
            let mut items: Vec<(u128, V)> = Vec::new();
            std::mem::swap(&mut items, &mut self.items);
            let ghost before = items@;
            items.remove(at);
            proof {
                let after = items@;
                assert(after =~= before.remove(at as int));
                assert(keys_increase(after));
                lemma_items_map(after);
                let m = items_map(before).remove(key);
                assert forall|k: u128| #[trigger]
                    items_map(after).contains_key(k) implies m.contains_key(k) && items_map(
                    after,
                )[k] == m[k] by {
                    let i = choose|i: int| 0 <= i < after.len() && (#[trigger] after[i]).0 == k;
                    if i < at {
                        assert(before[i] == after[i]);
                    } else {
                        assert(before[i + 1] == after[i]);
                    }
                }
                assert forall|k: u128| #[trigger] m.contains_key(k) implies items_map(
                    after,
                ).contains_key(k) by {
                    let i = choose|i: int| 0 <= i < before.len() && (#[trigger] before[i]).0 == k;
                    if i < at {
                        assert(before[i] == after[i]);
                    } else {
                        assert(before[i] == after[i - 1]);
                    }
                }
                assert(items_map(after) =~= m);
            }
            self.items = items;
        } else {
            assert(self@ =~= old(self)@.remove(key));
        }
    }
}

} // verus!
