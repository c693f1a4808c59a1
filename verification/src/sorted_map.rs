//! A map from texts to values, in ascending order of the texts.

use vstd::prelude::*;

use crate::order::lemma_precedes_total;
use crate::sorted::{
    ascending, lemma_after_bound, lemma_insert_ascending, lower_bound, position,
};
use crate::text::{str_eq, views};

verus! {

/// A map from texts to values: the value at each place belongs to the key there.
pub struct SortedMap<V> {
    pub keys: Vec<String>,
    pub values: Vec<V>,
}

/// The place of a key.
pub open spec fn place(keys: Seq<Seq<char>>, key: Seq<char>) -> int {
    choose|i: int| 0 <= i < keys.len() && #[trigger] keys[i] == key
}

/// The map that keys and values at the same places make.
pub open spec fn paired<V>(keys: Seq<Seq<char>>, values: Seq<V>) -> Map<Seq<char>, V> {
    Map::new(|k: Seq<char>| keys.contains(k), |k: Seq<char>| values[place(keys, k)])
}

impl<V> View for SortedMap<V> {
    type V = Map<Seq<char>, V>;

    open spec fn view(&self) -> Map<Seq<char>, V> {
        paired(views(self.keys@), self.values@)
    }
}

/// In ascending order a key has one place.
pub proof fn lemma_place(keys: Seq<Seq<char>>, i: int)
    requires
        ascending(keys),
        0 <= i < keys.len(),
    ensures
        place(keys, keys[i]) == i,
        keys.contains(keys[i]),
{
    let j = place(keys, keys[i]);
    assert(0 <= j < keys.len() && keys[j] == keys[i]);
    lemma_precedes_total(keys[i], keys[j]);
    if j < i {
        assert(crate::order::precedes(keys[j], keys[i]));
    }
    if i < j {
        assert(crate::order::precedes(keys[i], keys[j]));
    }
}

/// To change the value at the place of a key is to give the key that value.
pub proof fn lemma_paired_update<V>(keys: Seq<Seq<char>>, values: Seq<V>, i: int, v: V)
    requires
        ascending(keys),
        keys.len() == values.len(),
        0 <= i < keys.len(),
    ensures
        paired(keys, values.update(i, v)) == paired(keys, values).insert(keys[i], v),
{
    lemma_place(keys, i);
    let a = paired(keys, values.update(i, v));
    let b = paired(keys, values).insert(keys[i], v);
    assert forall|k: Seq<char>| a.contains_key(k) implies #[trigger] a[k] == b[k] by {
        let j = place(keys, k);
        assert(0 <= j < keys.len() && keys[j] == k);
        if k != keys[i] {
            assert(j != i);
        }
    }
    assert(a =~= b);
}

/// To put a key and a value in at the place of the key is to give the key that
/// value.
pub proof fn lemma_paired_insert<V>(
    keys: Seq<Seq<char>>,
    values: Seq<V>,
    i: int,
    key: Seq<char>,
    v: V,
)
    requires
        ascending(keys),
        keys.len() == values.len(),
        0 <= i <= keys.len(),
        !keys.contains(key),
        ascending(keys.insert(i, key)),
    ensures
        paired(keys.insert(i, key), values.insert(i, v)) == paired(keys, values).insert(key, v),
{
    let ks = keys.insert(i, key);
    let vs = values.insert(i, v);
    let a = paired(ks, vs);
    let b = paired(keys, values).insert(key, v);
    assert(ks[i] == key);
    lemma_place(ks, i);
    assert forall|k: Seq<char>| #[trigger] ks.contains(k) <==> (keys.contains(k) || k == key) by {
        if keys.contains(k) {
            let j = place(keys, k);
            assert(0 <= j < keys.len() && keys[j] == k);
            if j < i {
                assert(ks[j] == k);
            } else {
                assert(ks[j + 1] == k);
            }
        }
        if ks.contains(k) {
            let j = place(ks, k);
            assert(0 <= j < ks.len() && ks[j] == k);
            if j < i {
                assert(keys[j] == k);
            } else if j > i {
                assert(keys[j - 1] == k);
            }
        }
    }
    assert forall|k: Seq<char>| a.contains_key(k) implies #[trigger] a[k] == b[k] by {
        if k != key {
            let j = place(keys, k);
            assert(keys.contains(k));
            assert(0 <= j < keys.len() && keys[j] == k);
            if j < i {
                assert(ks[j] == k);
                lemma_place(ks, j);
            } else {
                assert(ks[j + 1] == k);
                lemma_place(ks, j + 1);
            }
        }
    }
    assert(a =~= b);
}

impl<V> SortedMap<V> {
    /// The keys are in ascending order, each with a value.
    pub open spec fn wf(&self) -> bool {
        &&& ascending(views(self.keys@))
        &&& self.keys@.len() == self.values@.len()
    }

    /// An empty map.
    pub fn new() -> (r: Self)
        ensures
            r.wf(),
            r@ == Map::<Seq<char>, V>::empty(),
    {
        let out = SortedMap { keys: Vec::new(), values: Vec::new() };
        assert(out@ =~= Map::<Seq<char>, V>::empty());
        out
    }

    /// The place of a key, where it is there.
    pub fn find(&self, key: &str) -> (r: Option<usize>)
        requires
            self.wf(),
        ensures
            r is Some == self@.contains_key(key@),
            r matches Some(i) ==> i < self.values@.len() && self.keys@[i as int]@ == key@
                && self@[key@] == self.values@[i as int],
    {
        let found = position(self.keys.as_slice(), key);
        if let Some(i) = found {
            proof {
                assert(views(self.keys@)[i as int] == key@);
                lemma_place(views(self.keys@), i as int);
            }
        }
        found
    }

    /// The value of a key.
    pub fn get(&self, key: &str) -> (r: Option<&V>)
        requires
            self.wf(),
        ensures
            r is Some == self@.contains_key(key@),
            r matches Some(v) ==> *v == self@[key@],
    {
        match self.find(key) {
            Some(i) => Some(&self.values[i]),
            None => None,
        }
    }

    /// Gives the value at a place.
    pub fn set(&mut self, i: usize, value: V)
        requires
            old(self).wf(),
            i < old(self).values@.len(),
        ensures
            final(self).wf(),
            final(self)@ == old(self)@.insert(old(self).keys@[i as int]@, value),
            final(self).keys@ == old(self).keys@,
            final(self).values@ == old(self).values@.update(i as int, value),
    {
        let ghost keys = views(self.keys@);
        let ghost values = self.values@;
        self.values[i] = value;
        proof {
            assert(keys[i as int] == self.keys@[i as int]@);
            assert(self.values@ =~= values.update(i as int, value));
            lemma_paired_update(keys, values, i as int, value);
        }
    }

    /// Gives a key its value, in place of one that it has.
    pub fn insert(&mut self, key: &str, value: V)
        requires
            old(self).wf(),
        ensures
            final(self).wf(),
            final(self)@ == old(self)@.insert(key@, value),
    {
        let i: usize = lower_bound(self.keys.as_slice(), key);
        let ghost keys = views(self.keys@);
        let ghost values = self.values@;
        if i < self.keys.len() && str_eq(self.keys[i].as_str(), key) {
            self.set(i, value);
            return ;
        }
        let ghost texts = self.keys@;
        proof {
            assert(i < keys.len() ==> keys[i as int] == texts[i as int]@);
            lemma_after_bound(keys, key@, i as int);
            lemma_insert_ascending(keys, key@, i as int);
            assert forall|j: int| 0 <= j < keys.len() implies keys[j] != key@ by {
                lemma_precedes_total(keys[j], key@);
            }
            lemma_paired_insert(keys, values, i as int, key@, value);
        }
        self.keys.insert(i, key.to_owned());
        self.values.insert(i, value);
        assert(views(self.keys@) =~= keys.insert(i as int, key@));
        assert(self.values@ =~= values.insert(i as int, value));
    }
}

impl<T> SortedMap<Vec<T>> {
    /// Puts an item behind those of a key.
    pub fn push_to(&mut self, key: &str, item: T)
        requires
            old(self).wf(),
        ensures
            final(self).wf(),
            final(self)@.contains_key(key@),
            final(self)@ == old(self)@.insert(key@, final(self)@[key@]),
            final(self)@[key@]@ == (if old(self)@.contains_key(key@) {
                old(self)@[key@]@.push(item)
            } else {
                seq![item]
            }),
    {
        match self.find(key) {
            Some(k) => {
                let ghost before = *self;
                let mut list: Vec<T> = Vec::new();
                std::mem::swap(&mut list, &mut self.values[k]);
                list.push(item);
                proof {
                    let keys = views(before.keys@);
                    assert(keys[k as int] == key@);
                    assert(self.values@ =~= before.values@.update(
                        k as int,
                        self.values@[k as int],
                    ));
                    lemma_paired_update(keys, before.values@, k as int, self.values@[k as int]);
                    assert(self@ == before@.insert(key@, self.values@[k as int]));
                }
                self.set(k, list);
                assert(self@ =~= before@.insert(key@, self@[key@]));
            },
            None => {
                let mut list: Vec<T> = Vec::new();
                list.push(item);
                assert(list@ =~= seq![item]);
                self.insert(key, list);
            },
        }
    }
}

} // verus!
