//! A table whose keys are digests.
//!
//! What is known of the maps of std holds for keys of primitive types. A digest is
//! a pair of them, so that its tables are kept as lists of distinct keys.
use vstd::prelude::*;
use crate::hash::CryptoHash;

verus! {

/// The table that a list of entries makes, later entries over earlier ones.
pub open spec fn table_of<V>(entries: Seq<(CryptoHash, V)>) -> Map<CryptoHash, V>
    decreases entries.len(),
{
    if entries.len() == 0 {
        Map::empty()
    } else {
        table_of(entries.drop_last()).insert(entries.last().0, entries.last().1)
    }
}

/// No two entries have the same key.
pub open spec fn distinct_keys<V>(entries: Seq<(CryptoHash, V)>) -> bool {
    forall|i: int, j: int|
        0 <= i < entries.len() && 0 <= j < entries.len() && i != j ==> (
        #[trigger] entries[i]).0 != (#[trigger] entries[j]).0
}

/// What a table of distinct keys holds, key by key.
pub proof fn lemma_table_of<V>(entries: Seq<(CryptoHash, V)>)
    requires
        distinct_keys(entries),
    ensures
        forall|i: int|
            0 <= i < entries.len() ==> table_of(entries).contains_key((#[trigger] entries[i]).0)
                && table_of(entries)[entries[i].0] == entries[i].1,
        forall|k: CryptoHash| #[trigger]
            table_of(entries).contains_key(k) ==> exists|i: int|
                0 <= i < entries.len() && (#[trigger] entries[i]).0 == k,
    decreases entries.len(),
{
    if entries.len() > 0 {
        let init = entries.drop_last();
        assert forall|i: int, j: int|
            0 <= i < init.len() && 0 <= j < init.len() && i != j implies (#[trigger] init[i]).0 != (
        #[trigger] init[j]).0 by {
            assert(entries[i].0 != entries[j].0);
        }
        lemma_table_of(init);
        assert forall|i: int| 0 <= i < entries.len() implies table_of(entries).contains_key(
            (#[trigger] entries[i]).0,
        ) && table_of(entries)[entries[i].0] == entries[i].1 by {
            if i < init.len() {
                assert(init[i] == entries[i]);
                assert(entries[i].0 != entries[entries.len() - 1].0);
            }
        }
        assert forall|k: CryptoHash| #[trigger] table_of(entries).contains_key(k) implies exists|
            i: int,
        |
            0 <= i < entries.len() && (#[trigger] entries[i]).0 == k by {
            if k != entries.last().0 {
                assert(table_of(init).contains_key(k));
                let i = choose|i: int| 0 <= i < init.len() && (#[trigger] init[i]).0 == k;
                assert(entries[i].0 == k);
            } else {
                assert(entries[entries.len() - 1].0 == k);
            }
        }
    }
}

/// The number of entries is the number of keys.
pub proof fn lemma_table_len<V>(entries: Seq<(CryptoHash, V)>)
    requires
        distinct_keys(entries),
    ensures
        table_of(entries).dom().finite(),
        table_of(entries).dom().len() == entries.len(),
    decreases entries.len(),
{
    if entries.len() > 0 {
        let init = entries.drop_last();
        assert forall|i: int, j: int|
            0 <= i < init.len() && 0 <= j < init.len() && i != j implies (#[trigger] init[i]).0 != (
        #[trigger] init[j]).0 by {
            assert(entries[i].0 != entries[j].0);
        }
        lemma_table_len(init);
        lemma_table_of(init);
        assert(!table_of(init).contains_key(entries.last().0)) by {
            if table_of(init).contains_key(entries.last().0) {
                let i = choose|i: int|
                    0 <= i < init.len() && (#[trigger] init[i]).0 == entries.last().0;
                assert(entries[i].0 != entries[entries.len() - 1].0);
            }
        }
        assert(table_of(entries).dom() =~= table_of(init).dom().insert(entries.last().0));
    } else {
        assert(table_of(entries).dom() =~= Set::empty());
    }
}

/// A table whose keys are digests. Its entries keep a fixed order while the
/// table is not changed.
pub struct ByHash<V> {
    items: Vec<(CryptoHash, V)>,
}

impl<V> View for ByHash<V> {
    type V = Map<CryptoHash, V>;

    open spec fn view(&self) -> Map<CryptoHash, V> {
        table_of(self.entries())
    }
}

impl<V> ByHash<V> {
    /// The entries, in the order in which they are walked.
    pub closed spec fn entries(&self) -> Seq<(CryptoHash, V)> {
        self.items@
    }

    #[verifier::type_invariant]
    spec fn well_formed(&self) -> bool {
        distinct_keys(self.items@)
    }

    /// A table without entries.
    pub fn new() -> (r: Self)
        ensures
            r.entries() == Seq::<(CryptoHash, V)>::empty(),
            r@ == Map::<CryptoHash, V>::empty(),
    {
        let r = ByHash { items: Vec::new() };
        assert(r.entries() =~= Seq::<(CryptoHash, V)>::empty());
        r
    }

    /// The number of entries, which is the number of keys.
    pub fn len(&self) -> (r: usize)
        ensures
            r == self.entries().len(),
            r == self@.dom().len(),
            self@.dom().finite(),
    {
        proof {
            use_type_invariant(self);
            lemma_table_len(self.items@);
        }
        self.items.len()
    }

    /// The entry at a place of the walk.
    pub fn at(&self, i: usize) -> (r: (CryptoHash, &V))
        requires
            i < self.entries().len(),
        ensures
            r.0 == self.entries()[i as int].0,
            *r.1 == self.entries()[i as int].1,
            self@.contains_key(r.0),
            self@[r.0] == *r.1,
    {
        proof {
            use_type_invariant(self);
            lemma_table_of(self.items@);
        }
        let entry: &(CryptoHash, V) = &self.items[i];
        (entry.0, &entry.1)
    }

    /// The place of a key in the walk.
    fn place(&self, key: CryptoHash) -> (r: Option<usize>)
        ensures
            match r {
                Some(i) => i < self.items@.len() && self.items@[i as int].0 == key,
                None => forall|i: int|
                    0 <= i < self.items@.len() ==> (#[trigger] self.items@[i]).0 != key,
            },
    {
        let mut i: usize = 0;
        while i < self.items.len()
            invariant
                i <= self.items.len(),
                forall|j: int| 0 <= j < i ==> (#[trigger] self.items@[j]).0 != key,
            decreases self.items.len() - i,
        {
            if self.items[i].0 == key {
                return Some(i);
            }
            i = i + 1;
        }
        None
    }

    /// The value of a key.
    pub fn get(&self, key: CryptoHash) -> (r: Option<&V>)
        ensures
            match r {
                Some(v) => self@.contains_key(key) && *v == self@[key],
                None => !self@.contains_key(key),
            },
    {
        proof {
            use_type_invariant(self);
            lemma_table_of(self.items@);
        }
        match self.place(key) {
            Some(i) => Some(&self.items[i].1),
            None => None,
        }
    }

    /// Takes the entry of a key out of the table.
    pub fn take(&mut self, key: CryptoHash) -> (r: Option<V>)
        ensures
            final(self)@ == old(self)@.remove(key),
            match r {
                Some(v) => old(self)@.contains_key(key) && v == old(self)@[key],
                None => !old(self)@.contains_key(key),
            },
    {
        proof {
            use_type_invariant(&*self);
            lemma_table_of(self.items@);
        }
        let mut items: Vec<(CryptoHash, V)> = Vec::new();
        let found: Option<usize> = self.place(key);
        std::mem::swap(&mut items, &mut self.items);
        let ghost before = items@;
        let r: Option<V> = match found {
            Some(i) => Some(items.remove(i).1),
            None => None,
        };
        proof {
            match found {
                Some(i) => {
                    assert forall|a: int, b: int|
                        0 <= a < items@.len() && 0 <= b < items@.len() && a != b implies (
                    #[trigger] items@[a]).0 != (#[trigger] items@[b]).0 by {
                        let a0 = if a < i { a } else { a + 1 };
                        let b0 = if b < i { b } else { b + 1 };
                        assert(items@[a] == before[a0] && items@[b] == before[b0]);
                        assert(before[a0].0 != before[b0].0);
                    }
                    lemma_table_of(items@);
                    assert(table_of(items@) =~= table_of(before).remove(key)) by {
                        assert forall|k: CryptoHash| #[trigger]
                            table_of(items@).contains_key(k) <==> table_of(before).remove(
                                key,
                            ).contains_key(k) by {
                            if table_of(items@).contains_key(k) {
                                let a = choose|a: int|
                                    0 <= a < items@.len() && (#[trigger] items@[a]).0 == k;
                                let a0 = if a < i { a } else { a + 1 };
                                assert(items@[a] == before[a0]);
                                assert(before[a0].0 != before[i as int].0);
                            }
                            if table_of(before).remove(key).contains_key(k) {
                                let a0 = choose|a: int|
                                    0 <= a < before.len() && (#[trigger] before[a]).0 == k;
                                let a = if a0 < i { a0 } else { a0 - 1 };
                                assert(items@[a] == before[a0]);
                            }
                        }
                        assert forall|k: CryptoHash| #[trigger]
                            table_of(items@).contains_key(k) implies table_of(items@)[k]
                            == table_of(before)[k] by {
                            let a = choose|a: int|
                                0 <= a < items@.len() && (#[trigger] items@[a]).0 == k;
                            let a0 = if a < i { a } else { a + 1 };
                            assert(items@[a] == before[a0]);
                        }
                    }
                },
                None => {
                    assert(table_of(before).remove(key) =~= table_of(before));
                },
            }
        }
        self.items = items;
        r
    }

    /// Gives a key a value, in place of the value it had.
    pub fn insert(&mut self, key: CryptoHash, value: V)
        ensures
            final(self)@ == old(self)@.insert(key, value),
    {
        self.take(key);
        proof {
            use_type_invariant(&*self);
            lemma_table_of(self.items@);
        }
        let ghost before = self.items@;
        let mut items: Vec<(CryptoHash, V)> = Vec::new();
        std::mem::swap(&mut items, &mut self.items);
        items.push((key, value));
        proof {
            assert forall|a: int, b: int|
                0 <= a < items@.len() && 0 <= b < items@.len() && a != b implies (
            #[trigger] items@[a]).0 != (#[trigger] items@[b]).0 by {
                if a < before.len() && b < before.len() {
                    assert(before[a].0 != before[b].0);
                } else if a < before.len() {
                    assert(table_of(before).contains_key(before[a].0));
                } else {
                    assert(table_of(before).contains_key(before[b].0));
                }
            }
            assert(items@.drop_last() =~= before);
        }
        self.items = items;
        assert(self@ =~= old(self)@.insert(key, value));
    }
}

} // verus!
