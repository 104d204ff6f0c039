//! Stored entry snapshots, keyed by entity id.
use vstd::prelude::*;

use crate::bytes::{bytes_equal, copy_bytes};
use crate::entry::{EntryView, SerializedSearchEntry};
use crate::ids::{id_set, ids_distinct};

verus! {

/// The map that a list of (id, snapshot) pairs with distinct ids stands for.
pub open spec fn map_of(items: Seq<(Vec<u8>, SerializedSearchEntry)>) -> Map<Seq<u8>, EntryView> {
    Map::new(
        |k: Seq<u8>| exists|i: int| 0 <= i < items.len() && (#[trigger] items[i]).0@ == k,
        |k: Seq<u8>| items[choose|i: int| 0 <= i < items.len() && (#[trigger] items[i]).0@ == k].1@,
    )
}

/// No id occurs twice among the pairs.
pub open spec fn keys_distinct(items: Seq<(Vec<u8>, SerializedSearchEntry)>) -> bool {
    forall|i: int, j: int|
        0 <= i < j < items.len() ==> (#[trigger] items[i]).0@ != (#[trigger] items[j]).0@
}

proof fn lemma_map_of_at(items: Seq<(Vec<u8>, SerializedSearchEntry)>, i: int)
    requires
        keys_distinct(items),
        0 <= i < items.len(),
    ensures
        map_of(items).contains_key(items[i].0@),
        map_of(items)[items[i].0@] == items[i].1@,
{
    let k = items[i].0@;
    assert(0 <= i < items.len() && items[i].0@ == k);
    let j = choose|j: int| 0 <= j < items.len() && (#[trigger] items[j]).0@ == k;
    if j < i {
        assert(items[j].0@ != items[i].0@);
    } else if i < j {
        assert(items[i].0@ != items[j].0@);
    }
}

proof fn lemma_map_of_push(
    items: Seq<(Vec<u8>, SerializedSearchEntry)>,
    pair: (Vec<u8>, SerializedSearchEntry),
)
    requires
        keys_distinct(items),
        !map_of(items).contains_key(pair.0@),
    ensures
        keys_distinct(items.push(pair)),
        map_of(items.push(pair)) == map_of(items).insert(pair.0@, pair.1@),
{
    let after = items.push(pair);
    assert forall|i: int, j: int| 0 <= i < j < after.len() implies (#[trigger] after[i]).0@
        != (#[trigger] after[j]).0@ by {
        if j == items.len() {
            assert(items[i] == after[i]);
        } else {
            assert(items[i] == after[i] && items[j] == after[j]);
        }
    }
    assert forall|k: Seq<u8>| #[trigger]
        map_of(after).contains_key(k) == map_of(items).insert(pair.0@, pair.1@).contains_key(k) by {
        if map_of(items).contains_key(k) {
            let j = choose|j: int| 0 <= j < items.len() && (#[trigger] items[j]).0@ == k;
            assert(after[j] == items[j]);
        }
        if map_of(after).contains_key(k) && k != pair.0@ {
            let j = choose|j: int| 0 <= j < after.len() && (#[trigger] after[j]).0@ == k;
            assert(after[j] == items[j]);
        }
        if k == pair.0@ {
            assert(after[items.len() as int] == pair);
        }
    }
    assert forall|k: Seq<u8>| #[trigger] map_of(after).contains_key(k) implies map_of(after)[k]
        == map_of(items).insert(pair.0@, pair.1@)[k] by {
        let j = choose|j: int| 0 <= j < after.len() && (#[trigger] after[j]).0@ == k;
        lemma_map_of_at(after, j);
        if j < items.len() {
            assert(after[j] == items[j]);
            lemma_map_of_at(items, j);
        }
    }
    assert(map_of(after) =~= map_of(items).insert(pair.0@, pair.1@));
}

proof fn lemma_map_of_update(
    items: Seq<(Vec<u8>, SerializedSearchEntry)>,
    i: int,
    pair: (Vec<u8>, SerializedSearchEntry),
)
    requires
        keys_distinct(items),
        0 <= i < items.len(),
        pair.0@ == items[i].0@,
    ensures
        keys_distinct(items.update(i, pair)),
        map_of(items.update(i, pair)) == map_of(items).insert(pair.0@, pair.1@),
{
    let after = items.update(i, pair);
    assert forall|a: int, b: int| 0 <= a < b < after.len() implies (#[trigger] after[a]).0@
        != (#[trigger] after[b]).0@ by {
        assert(after[a].0@ == items[a].0@);
        assert(after[b].0@ == items[b].0@);
    }
    assert forall|k: Seq<u8>| #[trigger]
        map_of(after).contains_key(k) == map_of(items).insert(pair.0@, pair.1@).contains_key(k) by {
        if map_of(items).contains_key(k) {
            let j = choose|j: int| 0 <= j < items.len() && (#[trigger] items[j]).0@ == k;
            assert(after[j].0@ == items[j].0@);
        }
        if map_of(after).contains_key(k) {
            let j = choose|j: int| 0 <= j < after.len() && (#[trigger] after[j]).0@ == k;
            assert(after[j].0@ == items[j].0@);
        }
        if k == pair.0@ {
            assert(after[i] == pair);
        }
    }
    assert forall|k: Seq<u8>| #[trigger] map_of(after).contains_key(k) implies map_of(after)[k]
        == map_of(items).insert(pair.0@, pair.1@)[k] by {
        let j = choose|j: int| 0 <= j < after.len() && (#[trigger] after[j]).0@ == k;
        lemma_map_of_at(after, j);
        if j != i {
            assert(after[j] == items[j]);
            lemma_map_of_at(items, j);
        }
    }
    assert(map_of(after) =~= map_of(items).insert(pair.0@, pair.1@));
}

proof fn lemma_map_of_remove(items: Seq<(Vec<u8>, SerializedSearchEntry)>, i: int)
    requires
        keys_distinct(items),
        0 <= i < items.len(),
    ensures
        keys_distinct(items.remove(i)),
        map_of(items.remove(i)) == map_of(items).remove(items[i].0@),
{
    let after = items.remove(i);
    let gone = items[i].0@;
    assert forall|a: int, b: int| 0 <= a < b < after.len() implies (#[trigger] after[a]).0@
        != (#[trigger] after[b]).0@ by {
        if a < i {
            if b >= i {
                assert(after[b] == items[b + 1]);
            }
        } else {
            assert(after[a] == items[a + 1]);
            assert(after[b] == items[b + 1]);
        }
    }
    assert forall|k: Seq<u8>| #[trigger]
        map_of(after).contains_key(k) == map_of(items).remove(gone).contains_key(k) by {
        if map_of(after).contains_key(k) {
            let j = choose|j: int| 0 <= j < after.len() && (#[trigger] after[j]).0@ == k;
            if j < i {
                assert(after[j] == items[j]);
                assert(items[j].0@ != items[i].0@);
            } else {
                assert(after[j] == items[j + 1]);
                assert(items[i].0@ != items[j + 1].0@);
            }
        }
        if map_of(items).remove(gone).contains_key(k) {
            let j = choose|j: int| 0 <= j < items.len() && (#[trigger] items[j]).0@ == k;
            assert(j != i);
            if j < i {
                assert(after[j] == items[j]);
            } else {
                assert(after[j - 1] == items[j]);
            }
        }
    }
    assert forall|k: Seq<u8>| #[trigger] map_of(after).contains_key(k) implies map_of(after)[k]
        == map_of(items).remove(gone)[k] by {
        let j = choose|j: int| 0 <= j < after.len() && (#[trigger] after[j]).0@ == k;
        lemma_map_of_at(after, j);
        if j < i {
            assert(after[j] == items[j]);
            lemma_map_of_at(items, j);
        } else {
            assert(after[j] == items[j + 1]);
            lemma_map_of_at(items, j + 1);
        }
    }
    assert(map_of(after) =~= map_of(items).remove(gone));
}

/// Entry snapshots keyed by entity id, each id at most once.
#[derive(Debug)]
pub struct EntityMap {
    items: Vec<(Vec<u8>, SerializedSearchEntry)>,
}

impl View for EntityMap {
    type V = Map<Seq<u8>, EntryView>;

    closed spec fn view(&self) -> Map<Seq<u8>, EntryView> {
        map_of(self.items@)
    }
}

impl EntityMap {
    #[verifier::type_invariant]
    closed spec fn well_formed(self) -> bool {
        keys_distinct(self.items@)
    }

    /// A map with no snapshots.
    pub fn new() -> (r: Self)
        ensures
            r@ == Map::<Seq<u8>, EntryView>::empty(),
    {
        let r = EntityMap { items: Vec::new() };
        assert(r@ =~= Map::<Seq<u8>, EntryView>::empty());
        r
    }

    /// The number of stored snapshots.
    pub fn len(&self) -> (r: usize)
        ensures
            r as nat == self@.dom().len(),
    {
        proof {
            use_type_invariant(self);
            self.lemma_dom_len();
        }
        self.items.len()
    }

    proof fn lemma_dom_len(&self)
        requires
            keys_distinct(self.items@),
        ensures
            self@.dom().finite(),
            self@.dom().len() == self.items@.len(),
    {
        let items = self.items@;
        let keys = items.map_values(|p: (Vec<u8>, SerializedSearchEntry)| p.0@);
        assert(keys.no_duplicates()) by {
            assert forall|i: int, j: int| 0 <= i < keys.len() && 0 <= j < keys.len() && i != j
                implies keys[i] != keys[j] by {
                if i < j {
                    assert(items[i].0@ != items[j].0@);
                } else {
                    assert(items[j].0@ != items[i].0@);
                }
            }
        }
        assert forall|k: Seq<u8>| #[trigger] self@.dom().contains(k) == keys.to_set().contains(k) by {
            if self@.dom().contains(k) {
                let j = choose|j: int| 0 <= j < items.len() && (#[trigger] items[j]).0@ == k;
                assert(keys[j] == k);
            }
            if keys.to_set().contains(k) {
                let j = choose|j: int| 0 <= j < keys.len() && keys[j] == k;
                assert(items[j].0@ == k);
            }
        }
        assert(self@.dom() =~= keys.to_set());
        keys.unique_seq_to_set();
    }

    /// Finds the position of the pair with id `id`.
    fn index_of(&self, id: &[u8]) -> (r: Option<usize>)
        ensures
            match r {
                Some(i) => i < self.items@.len() && self.items@[i as int].0@ == id@
                    && self@.contains_key(id@) && self@[id@] == self.items@[i as int].1@,
                None => !self@.contains_key(id@),
            },
    {
        proof {
            use_type_invariant(self);
        }
        let mut i: usize = 0;
        while i < self.items.len()
            invariant
                0 <= i <= self.items@.len(),
                keys_distinct(self.items@),
                forall|j: int| 0 <= j < i ==> (#[trigger] self.items@[j]).0@ != id@,
            decreases self.items@.len() - i,
        {
            if bytes_equal(self.items[i].0.as_slice(), id) {
                proof {
                    lemma_map_of_at(self.items@, i as int);
                }
                return Some(i);
            }
            i = i + 1;
        }
        None
    }

    /// The snapshot stored for `id`.
    pub fn get(&self, id: &[u8]) -> (r: Option<&SerializedSearchEntry>)
        ensures
            match r {
                Some(e) => self@.contains_key(id@) && self@[id@] == e@,
                None => !self@.contains_key(id@),
            },
    {
        match self.index_of(id) {
            Some(i) => Some(&self.items[i].1),
            None => None,
        }
    }

    /// Stores `entry` as the snapshot of `id`, replacing any earlier one.
    pub fn insert(&mut self, id: &[u8], entry: SerializedSearchEntry)
        ensures
            final(self)@ == old(self)@.insert(id@, entry@),
    {
        proof {
            use_type_invariant(&*self);
        }
        let key = copy_bytes(id);
        let ghost before = self.items@;
        let found = self.index_of(id);
        let mut items: Vec<(Vec<u8>, SerializedSearchEntry)> = Vec::new();
        std::mem::swap(&mut items, &mut self.items);
        match found {
            Some(i) => {
                proof {
                    lemma_map_of_update(before, i as int, (key, entry));
                }
                items.set(i, (key, entry));
            },
            None => {
                proof {
                    lemma_map_of_push(before, (key, entry));
                }
                items.push((key, entry));
            },
        }
        self.items = items;
    }

    /// Removes the snapshot of `id`, if there is one.
    pub fn remove(&mut self, id: &[u8])
        ensures
            final(self)@ == old(self)@.remove(id@),
    {
        proof {
            use_type_invariant(&*self);
        }
        match self.index_of(id) {
            Some(i) => {
                let ghost before = self.items@;
                proof {
                    lemma_map_of_remove(before, i as int);
                }
                let mut items: Vec<(Vec<u8>, SerializedSearchEntry)> = Vec::new();
                std::mem::swap(&mut items, &mut self.items);
                items.remove(i);
                self.items = items;
            },
            None => {
                assert(self@ =~= self@.remove(id@));
            },
        }
    }

    /// A copy of every id that has a snapshot, each once.
    pub fn ids(&self) -> (r: Vec<Vec<u8>>)
        ensures
            ids_distinct(r@),
            id_set(r@) == self@.dom(),
    {
        proof {
            use_type_invariant(self);
        }
        let mut r: Vec<Vec<u8>> = Vec::new();
        let mut i: usize = 0;
        while i < self.items.len()
            invariant
                0 <= i <= self.items@.len(),
                keys_distinct(self.items@),
                r@.len() == i,
                forall|j: int| 0 <= j < i ==> (#[trigger] r@[j])@ == self.items@[j].0@,
            decreases self.items@.len() - i,
        {
            r.push(copy_bytes(self.items[i].0.as_slice()));
            i = i + 1;
        }
        proof {
            assert forall|a: int, b: int| 0 <= a < b < r@.len() implies (#[trigger] r@[a])@
                != (#[trigger] r@[b])@ by {
                assert(self.items@[a].0@ != self.items@[b].0@);
            }
            assert forall|k: Seq<u8>| #[trigger] id_set(r@).contains(k) == self@.dom().contains(k) by {
                if id_set(r@).contains(k) {
                    let j = choose|j: int| 0 <= j < r@.len() && (#[trigger] r@[j])@ == k;
                    assert(self.items@[j].0@ == k);
                }
                if self@.dom().contains(k) {
                    let j = choose|j: int|
                        0 <= j < self.items@.len() && (#[trigger] self.items@[j]).0@ == k;
                    assert(r@[j]@ == k);
                }
            }
            assert(id_set(r@) =~= self@.dom());
        }
        r
    }
}

} // verus!
