//! A dictionary from byte strings to values, kept in ascending key order.

use vstd::prelude::*;

use crate::bytes::{lemma_lex_total, lemma_lex_trans, lex_less, lex_lt, same};

verus! {

/// A dictionary with byte-string keys in strictly ascending order.
pub struct Dict<V> {
    pub entries: Vec<(Vec<u8>, V)>,
}

/// Whether a list of keys is strictly ascending.
pub open spec fn ascending(keys: Seq<Seq<u8>>) -> bool {
    forall|i: int, j: int| 0 <= i < j < keys.len() ==> lex_lt(#[trigger] keys[i], #[trigger] keys[j])
}

/// Whether `keys` lists the keys of `m` in ascending order.
pub open spec fn lists_keys<X>(m: Map<Seq<u8>, X>, keys: Seq<Seq<u8>>) -> bool {
    &&& ascending(keys)
    &&& forall|k: Seq<u8>| #[trigger] m.contains_key(k) <==> keys.contains(k)
}

/// The keys of a finite map, in ascending order.
pub open spec fn keys_of<X>(m: Map<Seq<u8>, X>) -> Seq<Seq<u8>> {
    choose|keys: Seq<Seq<u8>>| lists_keys(m, keys)
}

/// Two ascending lists with the same keys are the same list.
pub proof fn lemma_ascending_unique(a: Seq<Seq<u8>>, b: Seq<Seq<u8>>)
    requires
        ascending(a),
        ascending(b),
        forall|k: Seq<u8>| a.contains(k) <==> b.contains(k),
    ensures
        a == b,
    decreases a.len(),
{
    if a.len() == 0 {
        if b.len() > 0 {
            assert(b.contains(b[0]));
            assert(a.contains(b[0]));
        }
        assert(a =~= b);
    } else {
        assert(a.contains(a[0]));
        assert(b.contains(a[0]));
        let j = b.index_of(a[0]);
        if j > 0 {
            assert(b.contains(b[0]));
            assert(a.contains(b[0]));
            let i = a.index_of(b[0]);
            lemma_lex_total(a[0], b[0]);
            lemma_lex_total(b[0], a[0]);
        }
        let ta = a.skip(1);
        let tb = b.skip(1);
        assert forall|k: Seq<u8>| ta.contains(k) implies tb.contains(k) by {
            let i = ta.index_of(k);
            assert(a[i + 1] == k);
            assert(a.contains(k));
            let m = b.index_of(k);
            lemma_lex_total(a[0], k);
            assert(m != 0);
            assert(tb[m - 1] == k);
        }
        assert forall|k: Seq<u8>| tb.contains(k) implies ta.contains(k) by {
            let i = tb.index_of(k);
            assert(b[i + 1] == k);
            assert(b.contains(k));
            let m = a.index_of(k);
            lemma_lex_total(b[0], k);
            assert(m != 0);
            assert(ta[m - 1] == k);
        }
        lemma_ascending_unique(ta, tb);
        assert(a =~= seq![a[0]] + ta);
        assert(b =~= seq![b[0]] + tb);
    }
}

impl<V: View> View for Dict<V> {
    type V = Map<Seq<u8>, V::V>;

    open spec fn view(&self) -> Map<Seq<u8>, V::V> {
        self.map().map_values(|v: V| v@)
    }
}

impl<V: View> Dict<V> {
    /// The keys, in ascending order.
    pub open spec fn keys(self) -> Seq<Seq<u8>> {
        Seq::new(self.entries@.len(), |i: int| self.entries@[i].0@)
    }

    /// The keys are strictly ascending.
    pub open spec fn wf(self) -> bool {
        ascending(self.keys())
    }

    /// The value of each key.
    pub open spec fn map(self) -> Map<Seq<u8>, V> {
        Map::new(
            |k: Seq<u8>| self.keys().contains(k),
            |k: Seq<u8>| self.entries@[self.keys().index_of(k)].1,
        )
    }

    /// The keys are those of the map, in ascending order.
    pub proof fn lemma_keys(self)
        requires
            self.wf(),
        ensures
            self.keys() == keys_of(self@),
            forall|k: Seq<u8>| self@.contains_key(k) == self.map().contains_key(k),
            forall|k: Seq<u8>| #[trigger] self@.contains_key(k) ==> self@[k] == self.map()[k]@,
            forall|k: Seq<u8>| self.keys().contains(k) == self.map().contains_key(k),
    {
        assert(lists_keys(self@, self.keys()));
        let other = keys_of(self@);
        assert forall|k: Seq<u8>| self.keys().contains(k) <==> other.contains(k) by {
            assert(self@.contains_key(k) == self.keys().contains(k));
        }
        lemma_ascending_unique(self.keys(), other);
    }

    /// In an ascending dictionary the entry at `i` is the one its key finds.
    pub proof fn lemma_at(self, i: int)
        requires
            self.wf(),
            0 <= i < self.entries@.len(),
        ensures
            self.map().contains_key(self.keys()[i]),
            self.map()[self.keys()[i]] == self.entries@[i].1,
            self.keys().index_of(self.keys()[i]) == i,
    {
        let k = self.keys()[i];
        assert(self.keys().contains(k));
        let j = self.keys().index_of(k);
        assert(0 <= j < self.keys().len() && self.keys()[j] == k);
        lemma_lex_total(k, k);
    }

    /// A key of the map stands somewhere in the list.
    pub proof fn lemma_find(self, k: Seq<u8>) -> (i: int)
        requires
            self.wf(),
            self.map().contains_key(k),
        ensures
            0 <= i < self.entries@.len(),
            self.keys()[i] == k,
            self.map()[k] == self.entries@[i].1,
    {
        self.keys().index_of(k)
    }

    /// An empty dictionary.
    pub fn new() -> (r: Dict<V>)
        ensures
            r.wf(),
            r.map() == Map::<Seq<u8>, V>::empty(),
            r@ == Map::<Seq<u8>, V::V>::empty(),
            r.keys() == Seq::<Seq<u8>>::empty(),
    {
        let r = Dict { entries: Vec::new() };
        assert(r.map() =~= Map::<Seq<u8>, V>::empty());
        assert(r@ =~= Map::<Seq<u8>, V::V>::empty());
        r
    }

    /// The number of keys.
    pub fn len(&self) -> (r: usize)
        ensures
            r == self.keys().len(),
    {
        self.entries.len()
    }

    /// Where `key` stands, or where it would be inserted.
    pub fn locate(&self, key: &[u8]) -> (r: (bool, usize))
        requires
            self.wf(),
        ensures
            r.1 <= self.entries@.len(),
            forall|j: int| 0 <= j < r.1 ==> lex_lt(#[trigger] self.keys()[j], key@),
            r.0 ==> r.1 < self.entries@.len() && self.keys()[r.1 as int] == key@,
            !r.0 ==> forall|j: int|
                r.1 <= j < self.entries@.len() ==> lex_lt(key@, #[trigger] self.keys()[j]),
            r.0 == self.map().contains_key(key@),
            r.0 ==> self.map()[key@] == self.entries@[r.1 as int].1,
    {
        let mut i: usize = 0;
        while i < self.entries.len()
            invariant
                self.wf(),
                i <= self.entries@.len(),
                forall|j: int| 0 <= j < i ==> lex_lt(#[trigger] self.keys()[j], key@),
            decreases self.entries@.len() - i,
        {
            assert(self.keys()[i as int] == self.entries@[i as int].0@);
            if same(&self.entries[i].0, key) {
                proof {
                    self.lemma_at(i as int);
                }
                return (true, i);
            }
            if !lex_less(&self.entries[i].0, key) {
                proof {
                    lemma_lex_total(self.keys()[i as int], key@);
                    assert forall|j: int| i <= j < self.entries@.len() implies lex_lt(
                        key@,
                        #[trigger] self.keys()[j],
                    ) by {
                        if j > i {
                            lemma_lex_trans(key@, self.keys()[i as int], self.keys()[j]);
                        }
                    }
                    assert forall|j: int| 0 <= j < self.entries@.len() implies #[trigger] self.keys()[j]
                        != key@ by {
                        lemma_lex_total(self.keys()[j], key@);
                        lemma_lex_total(key@, self.keys()[j]);
                    }
                }
                return (false, i);
            }
            i += 1;
        }
        proof {
            assert forall|j: int| 0 <= j < self.entries@.len() implies #[trigger] self.keys()[j]
                != key@ by {
                lemma_lex_total(self.keys()[j], key@);
            }
        }
        (false, i)
    }

    /// Whether the dictionary has `key`.
    pub fn contains(&self, key: &[u8]) -> (r: bool)
        requires
            self.wf(),
        ensures
            r == self.map().contains_key(key@),
            r == self@.contains_key(key@),
    {
        self.locate(key).0
    }

    /// The value of `key`.
    pub fn get(&self, key: &[u8]) -> (r: Option<&V>)
        requires
            self.wf(),
        ensures
            match r {
                Some(v) => self.map().contains_key(key@) && *v == self.map()[key@]
                    && self@.contains_key(key@) && v@ == self@[key@],
                None => !self.map().contains_key(key@) && !self@.contains_key(key@),
            },
    {
        let (found, i) = self.locate(key);
        if found {
            Some(&self.entries[i].1)
        } else {
            None
        }
    }

    /// The value of `key`, to change in place.
    pub fn get_mut(&mut self, key: &[u8]) -> (r: Option<&mut V>)
        requires
            old(self).wf(),
        ensures
            final(self).wf(),
            final(self).keys() == old(self).keys(),
            match r {
                Some(v) => old(self).map().contains_key(key@) && *v == old(self).map()[key@]
                    && final(self).map() == old(self).map().insert(key@, *final(v))
                    && old(self)@.contains_key(key@) && v@ == old(self)@[key@]
                    && final(self)@ == old(self)@.insert(key@, final(v)@),
                None => !old(self).map().contains_key(key@) && !old(self)@.contains_key(key@)
                    && *final(self) == *old(self),
            },
    {
        let (found, i) = self.locate(key);
        if found {
            let ghost before = *self;
            let v: &mut V = &mut self.entries[i].1;
            proof {
                let ghost after = Dict { entries: after_borrow(self.entries) };
                lemma_value_replaced(before, after, i as int, *final(v));
            }
            Some(v)
        } else {
            None
        }
    }

    /// Sets the value of `key`.
    pub fn insert(&mut self, key: Vec<u8>, value: V)
        requires
            old(self).wf(),
        ensures
            final(self).wf(),
            final(self).map() == old(self).map().insert(key@, value),
            final(self)@ == old(self)@.insert(key@, value@),
    {
        let (found, i) = self.locate(&key);
        let ghost before = *self;
        if found {
            self.entries.set(i, (key, value));
            proof {
                lemma_value_replaced(before, *self, i as int, value);
            }
        } else {
            let ghost k = key@;
            self.entries.insert(i, (key, value));
            proof {
                assert(self.keys() =~= before.keys().insert(i as int, k));
                assert(self.wf());
                assert forall|q: Seq<u8>| self.keys().contains(q) == (q == k
                    || before.keys().contains(q)) by {
                    if q == k {
                        assert(self.keys()[i as int] == k);
                    }
                    if before.keys().contains(q) {
                        let j = before.keys().index_of(q);
                        if j < i {
                            assert(self.keys()[j] == q);
                        } else {
                            assert(self.keys()[j + 1] == q);
                        }
                    }
                    if self.keys().contains(q) && q != k {
                        let j = self.keys().index_of(q);
                        if j < i {
                            assert(before.keys()[j] == q);
                        } else {
                            assert(before.keys()[j - 1] == q);
                        }
                    }
                }
                assert forall|q: Seq<u8>| self.map().contains_key(q) implies self.map()[q]
                    == before.map().insert(k, value)[q] by {
                    let j = self.keys().index_of(q);
                    self.lemma_at(j);
                    self.lemma_at(i as int);
                    if q != k {
                        if j < i {
                            before.lemma_at(j);
                        } else {
                            before.lemma_at(j - 1);
                        }
                    }
                }
                assert(self.map() =~= before.map().insert(k, value));
                assert(self@ =~= before@.insert(k, value@));
            }
        }
    }

    /// Removes `key` and gives its value.
    pub fn remove(&mut self, key: &[u8]) -> (r: Option<V>)
        requires
            old(self).wf(),
        ensures
            final(self).wf(),
            final(self).map() == old(self).map().remove(key@),
            final(self)@ == old(self)@.remove(key@),
            match r {
                Some(v) => old(self).map().contains_key(key@) && v == old(self).map()[key@]
                    && old(self)@.contains_key(key@) && v@ == old(self)@[key@],
                None => !old(self).map().contains_key(key@) && !old(self)@.contains_key(key@)
                    && *final(self) == *old(self),
            },
    {
        let (found, i) = self.locate(key);
        let ghost before = *self;
        if found {
            let e: (Vec<u8>, V) = self.entries.remove(i);
            proof {
                assert(self.keys() =~= before.keys().remove(i as int));
                assert(self.wf());
                assert forall|q: Seq<u8>| self.keys().contains(q) == (q != key@
                    && before.keys().contains(q)) by {
                    if before.keys().contains(q) && q != key@ {
                        let j = before.keys().index_of(q);
                        if j < i {
                            assert(self.keys()[j] == q);
                        } else {
                            assert(self.keys()[j - 1] == q);
                        }
                    }
                    if self.keys().contains(q) {
                        let j = self.keys().index_of(q);
                        let b = if j < i {
                            j
                        } else {
                            j + 1
                        };
                        assert(before.keys()[b] == q);
                        lemma_lex_total(q, q);
                    }
                }
                assert forall|q: Seq<u8>| self.map().contains_key(q) implies self.map()[q]
                    == before.map().remove(key@)[q] by {
                    let j = self.keys().index_of(q);
                    self.lemma_at(j);
                    if j < i {
                        before.lemma_at(j);
                    } else {
                        before.lemma_at(j + 1);
                    }
                }
                assert(self.map() =~= before.map().remove(key@));
                assert(self@ =~= before@.remove(key@));
            }
            Some(e.1)
        } else {
            assert(self.map() =~= before.map().remove(key@));
            assert(self@ =~= before@.remove(key@));
            None
        }
    }
}

/// Replacing the value at one position changes the map at its key alone.
proof fn lemma_value_replaced<V: View>(before: Dict<V>, after: Dict<V>, i: int, value: V)
    requires
        before.wf(),
        0 <= i < before.entries@.len(),
        after.entries@.len() == before.entries@.len(),
        after.entries@[i].0@ == before.entries@[i].0@,
        after.entries@[i].1 == value,
        forall|j: int|
            0 <= j < before.entries@.len() && j != i ==> after.entries@[j] == before.entries@[j],
    ensures
        after.wf(),
        after.keys() == before.keys(),
        after.map() == before.map().insert(before.keys()[i], value),
        after@ == before@.insert(before.keys()[i], value@),
{
    assert(after.keys() =~= before.keys());
    let k = before.keys()[i];
    assert forall|q: Seq<u8>| after.map().contains_key(q) implies after.map()[q]
        == before.map().insert(k, value)[q] by {
        let j = after.keys().index_of(q);
        after.lemma_at(j);
        before.lemma_at(j);
        before.lemma_at(i);
    }
    before.lemma_at(i);
    assert(after.map() =~= before.map().insert(k, value));
    assert(after@ =~= before@.insert(k, value@));
}

} // verus!
