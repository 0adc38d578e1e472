//! Insertion-ordered tables of named entries.
//!
//! Every table of the theme maps string names to values.  The resolver and
//! the canonicalizer both need a deterministic iteration order, so the table
//! keeps its entries in insertion order: two parallel vectors, one of keys
//! and one of values, with the keys unique.

use vstd::prelude::*;

verus! {

/// The association map denoted by two parallel sequences of keys and
/// values; a later binding of a key wins over an earlier one.
pub open spec fn assoc_map<V>(keys: Seq<Seq<char>>, vals: Seq<V>) -> Map<Seq<char>, V>
    decreases keys.len(),
{
    if keys.len() == 0 || vals.len() != keys.len() {
        Map::empty()
    } else {
        assoc_map(keys.drop_last(), vals.drop_last()).insert(keys.last(), vals.last())
    }
}

/// The domain of the association map is exactly the set of keys.
pub proof fn lemma_assoc_dom<V>(keys: Seq<Seq<char>>, vals: Seq<V>, k: Seq<char>)
    requires
        keys.len() == vals.len(),
    ensures
        assoc_map(keys, vals).contains_key(k) <==> keys.contains(k),
    decreases keys.len(),
{
    if keys.len() > 0 {
        lemma_assoc_dom(keys.drop_last(), vals.drop_last(), k);
        if keys.contains(k) {
            let i = choose|i: int| 0 <= i < keys.len() && keys[i] == k;
            if i < keys.len() - 1 {
                assert(keys.drop_last()[i] == k);
            }
        }
        if keys.drop_last().contains(k) {
            let i = choose|i: int| 0 <= i < keys.drop_last().len() && keys.drop_last()[i] == k;
            assert(keys[i] == k);
        }
    }
}

/// When the keys are unique, each key is bound to the value at its index.
pub proof fn lemma_assoc_index<V>(keys: Seq<Seq<char>>, vals: Seq<V>, i: int)
    requires
        keys.len() == vals.len(),
        forall|p: int, q: int| 0 <= p < q < keys.len() ==> keys[p] != keys[q],
        0 <= i < keys.len(),
    ensures
        assoc_map(keys, vals).contains_key(keys[i]),
        assoc_map(keys, vals)[keys[i]] == vals[i],
    decreases keys.len(),
{
    lemma_assoc_dom(keys, vals, keys[i]);
    if i < keys.len() - 1 {
        assert(keys[i] != keys.last());
        assert(keys.drop_last()[i] == keys[i]);
        assert(vals.drop_last()[i] == vals[i]);
        lemma_assoc_index(keys.drop_last(), vals.drop_last(), i);
    }
}

/// An insertion-ordered map from string names to values.
#[derive(Clone, Debug)]
pub struct Table<V> {
    keys: Vec<String>,
    vals: Vec<V>,
}

impl<V> View for Table<V> {
    type V = Map<Seq<char>, V>;

    closed spec fn view(&self) -> Map<Seq<char>, V> {
        assoc_map(self.key_seq(), self.vals@)
    }
}

impl<V> Table<V> {
    /// The names of the entries, in insertion order.
    pub closed spec fn key_seq(&self) -> Seq<Seq<char>> {
        self.keys@.map_values(|k: String| k@)
    }

    /// The values of the entries, in insertion order.
    pub closed spec fn val_seq(&self) -> Seq<V> {
        self.vals@
    }

    /// Well-formed: as many values as keys, and no key repeated.
    pub open spec fn wf(&self) -> bool {
        &&& self.key_seq().len() == self.val_seq().len()
        &&& forall|p: int, q: int|
            0 <= p < q < self.key_seq().len() ==> self.key_seq()[p] != self.key_seq()[q]
    }

    /// Number of entries.
    pub open spec fn spec_len(&self) -> nat {
        self.key_seq().len()
    }

    /// Each name in order is in the table's domain and bound to the value
    /// at the same position.
    pub proof fn lemma_entry(&self, i: int)
        requires
            self.wf(),
            0 <= i < self.spec_len(),
        ensures
            self@.contains_key(self.key_seq()[i]),
            self@[self.key_seq()[i]] == self.val_seq()[i],
    {
        lemma_assoc_index(self.key_seq(), self.vals@, i);
    }

    /// The domain of the table is exactly the set of its names.
    pub proof fn lemma_dom(&self, k: Seq<char>)
        requires
            self.wf(),
        ensures
            self@.contains_key(k) <==> self.key_seq().contains(k),
    {
        lemma_assoc_dom(self.key_seq(), self.vals@, k);
    }

    /// The domain of the table is the finite set of its names, as many as
    /// its entries.
    pub proof fn lemma_card(&self)
        requires
            self.wf(),
        ensures
            self@.dom() =~= self.key_seq().to_set(),
            self@.dom().finite(),
            self@.dom().len() == self.spec_len(),
    {
        broadcast use vstd::seq_lib::seq_to_set_is_finite;

        assert forall|k: Seq<char>| self@.contains_key(k) <==> self.key_seq().to_set().contains(
            k,
        ) by {
            self.lemma_dom(k);
        }
        assert(self@.dom() =~= self.key_seq().to_set());
        assert(self.key_seq().no_duplicates());
        self.key_seq().unique_seq_to_set();
    }

    /// Creates an empty table.
    pub fn new() -> (r: Table<V>)
        ensures
            r.wf(),
            r@ == Map::<Seq<char>, V>::empty(),
            r.key_seq() == Seq::<Seq<char>>::empty(),
    {
        let r = Table { keys: Vec::new(), vals: Vec::new() };
        proof {
            assert(r.key_seq() =~= Seq::<Seq<char>>::empty());
        }
        r
    }

    /// Number of entries.
    pub fn len(&self) -> (r: usize)
        ensures
            r == self.spec_len(),
    {
        self.keys.len()
    }

    /// The position of a name in the table, if present.
    fn position(&self, name: &String) -> (r: Option<usize>)
        requires
            self.wf(),
        ensures
            match r {
                Some(i) => i < self.spec_len() && self.key_seq()[i as int] == name@,
                None => !self@.contains_key(name@),
            },
    {
        let n = self.keys.len();
        for i in 0..n
            invariant
                n == self.spec_len(),
                self.wf(),
                forall|j: int| 0 <= j < i ==> self.key_seq()[j] != name@,
        {
            proof {
                assert(self.key_seq()[i as int] == self.keys@[i as int]@);
            }
            if self.keys[i] == *name {
                return Some(i);
            }
        }
        proof {
            self.lemma_dom(name@);
            if self.key_seq().contains(name@) {
                let j = choose|j: int|
                    0 <= j < self.key_seq().len() && self.key_seq()[j] == name@;
                assert(false);
            }
        }
        None
    }

    /// Whether the table holds an entry of this name.
    pub fn contains(&self, name: &String) -> (r: bool)
        requires
            self.wf(),
        ensures
            r == self@.contains_key(name@),
    {
        let p = self.position(name);
        proof {
            if p is Some {
                self.lemma_entry(p->0 as int);
            }
        }
        p.is_some()
    }

    /// Looks a name up.
    pub fn get(&self, name: &String) -> (r: Option<&V>)
        requires
            self.wf(),
        ensures
            match r {
                Some(v) => self@.contains_key(name@) && *v == self@[name@],
                None => !self@.contains_key(name@),
            },
    {
        match self.position(name) {
            Some(i) => {
                proof {
                    self.lemma_entry(i as int);
                }
                Some(&self.vals[i])
            },
            None => None,
        }
    }

    /// The name of the entry at a position, in insertion order.
    pub fn key_at(&self, i: usize) -> (r: &String)
        requires
            i < self.spec_len(),
        ensures
            r@ == self.key_seq()[i as int],
    {
        &self.keys[i]
    }

    /// The value of the entry at a position, in insertion order.
    pub fn val_at(&self, i: usize) -> (r: &V)
        requires
            self.wf(),
            i < self.spec_len(),
        ensures
            *r == self.val_seq()[i as int],
            self@.contains_key(self.key_seq()[i as int]),
            *r == self@[self.key_seq()[i as int]],
    {
        proof {
            self.lemma_entry(i as int);
        }
        &self.vals[i]
    }

    /// Copies the table verbatim, keys, values and order.
    pub fn duplicate(&self) -> (r: Table<V>) where V: Copy
        requires
            self.wf(),
        ensures
            r.wf(),
            r@ == self@,
            r.key_seq() == self.key_seq(),
            r.val_seq() == self.val_seq(),
    {
        let mut keys: Vec<String> = Vec::new();
        let mut vals: Vec<V> = Vec::new();
        let n = self.keys.len();
        for i in 0..n
            invariant
                n == self.keys@.len(),
                self.wf(),
                keys@.len() == i,
                vals@.len() == i,
                forall|j: int| 0 <= j < i ==> keys@[j]@ == self.keys@[j]@,
                forall|j: int| 0 <= j < i ==> vals@[j] == self.vals@[j],
        {
            keys.push(self.keys[i].clone());
            vals.push(self.vals[i]);
        }
        let r = Table { keys, vals };
        proof {
            assert(r.key_seq() =~= self.key_seq());
            assert(r.vals@ =~= self.vals@);
        }
        r
    }

    /// Binds a name to a value: replaces the value of an existing entry, or
    /// appends a new entry at the end.
    pub fn insert(&mut self, name: String, v: V)
        requires
            old(self).wf(),
        ensures
            final(self).wf(),
            final(self)@ == old(self)@.insert(name@, v),
            final(self).key_seq() == if old(self)@.contains_key(name@) {
                old(self).key_seq()
            } else {
                old(self).key_seq().push(name@)
            },
            final(self).spec_len() == if old(self)@.contains_key(name@) {
                old(self).spec_len()
            } else {
                old(self).spec_len() + 1
            },
            !old(self)@.contains_key(name@) ==> final(self).val_seq() == old(
                self,
            ).val_seq().push(v),
    {
        match self.position(&name) {
            Some(i) => {
                proof {
                    self.lemma_entry(i as int);
                }
                self.vals[i] = v;
                proof {
                    lemma_assoc_update(old(self).key_seq(), old(self).vals@, i as int, v);
                    assert(self.key_seq() =~= old(self).key_seq());
                }
            },
            None => {
                let ghost ks = self.key_seq();
                let ghost vs = self.vals@;
                self.keys.push(name);
                self.vals.push(v);
                proof {
                    assert(self.key_seq() =~= ks.push(name@));
                    lemma_assoc_push(ks, vs, name@, v);
                    old(self).lemma_dom(name@);
                    assert forall|p: int, q: int|
                        0 <= p < q < self.key_seq().len() implies self.key_seq()[p]
                        != self.key_seq()[q] by {
                        if q == self.key_seq().len() - 1 {
                            assert(ks.contains(ks[p]));
                        }
                    }
                }
            },
        }
    }
}

/// A table whose names all occur in another table has no more entries.
pub proof fn lemma_table_len_le<V, W>(a: &Table<V>, b: &Table<W>)
    requires
        a.wf(),
        b.wf(),
        forall|k: Seq<char>| #[trigger] a@.contains_key(k) ==> b@.contains_key(k),
    ensures
        a.spec_len() == a@.dom().len(),
        b.spec_len() == b@.dom().len(),
        a.spec_len() <= b@.dom().len(),
        a@.dom().finite(),
        b@.dom().finite(),
{
    a.lemma_card();
    b.lemma_card();
    assert(a@.dom().subset_of(b@.dom()));
    vstd::set_lib::lemma_len_subset(a@.dom(), b@.dom());
}

/// Appending a fresh binding inserts it into the association map.
proof fn lemma_assoc_push<V>(keys: Seq<Seq<char>>, vals: Seq<V>, k: Seq<char>, v: V)
    requires
        keys.len() == vals.len(),
    ensures
        assoc_map(keys.push(k), vals.push(v)) == assoc_map(keys, vals).insert(k, v),
{
    assert(keys.push(k).drop_last() =~= keys);
    assert(vals.push(v).drop_last() =~= vals);
}

/// Overwriting the value at an index of a unique-keyed association list
/// re-inserts that key into the association map.
proof fn lemma_assoc_update<V>(keys: Seq<Seq<char>>, vals: Seq<V>, i: int, v: V)
    requires
        keys.len() == vals.len(),
        forall|p: int, q: int| 0 <= p < q < keys.len() ==> keys[p] != keys[q],
        0 <= i < keys.len(),
    ensures
        assoc_map(keys, vals.update(i, v)) == assoc_map(keys, vals).insert(keys[i], v),
    decreases keys.len(),
{
    let n = keys.len();
    if i == n - 1 {
        assert(vals.update(i, v).drop_last() =~= vals.drop_last());
        assert(assoc_map(keys, vals.update(i, v)) =~= assoc_map(keys, vals).insert(keys[i], v));
    } else {
        assert(vals.update(i, v).drop_last() =~= vals.drop_last().update(i, v));
        assert(keys.drop_last()[i] == keys[i]);
        lemma_assoc_update(keys.drop_last(), vals.drop_last(), i, v);
        assert(keys[i] != keys.last());
        assert(assoc_map(keys, vals.update(i, v)) =~= assoc_map(keys, vals).insert(keys[i], v));
    }
}

} // verus!
