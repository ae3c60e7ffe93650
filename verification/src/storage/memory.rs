//! An entry store that lives in memory: rows in the order in which their pairs
//! were first stored, no pair twice.

use crate::storage::{
    entry_of, entry_views, found, holds_bucket, text_views, Entry, Error, Pair, Record, Rows,
    Storage,
};
use crate::text::{comes_before, lemma_text_order, same_text, text_before};
use vstd::prelude::*;

verus! {

/// A row together with the pair it is kept under.
struct Slot {
    bucket: String,
    key: String,
    value: String,
    created_on: u64,
    modified_on: Option<u64>,
}

impl Slot {
    spec fn pair(self) -> Pair {
        (self.bucket@, self.key@)
    }

    spec fn record(self) -> Record {
        Record { value: self.value@, created_on: self.created_on, modified_on: self.modified_on }
    }
}

/// No pair stands in two slots.
spec fn distinct(slots: Seq<Slot>) -> bool {
    forall|i: int, j: int|
        0 <= i < j < slots.len() ==> (#[trigger] slots[i]).pair() != (#[trigger] slots[j]).pair()
}

/// Whether `i` is a slot of `pair`.
spec fn at(slots: Seq<Slot>, pair: Pair, i: int) -> bool {
    0 <= i < slots.len() && slots[i].pair() == pair
}

/// Whether some slot is kept under `pair`.
spec fn holds(slots: Seq<Slot>, pair: Pair) -> bool {
    exists|i: int| at(slots, pair, i)
}

/// A slot that is kept under `pair`.
spec fn position(slots: Seq<Slot>, pair: Pair) -> int {
    choose|i: int| at(slots, pair, i)
}

/// The rows that the slots stand for.
spec fn rows_of(slots: Seq<Slot>) -> Rows {
    Map::new(|pair: Pair| holds(slots, pair), |pair: Pair| slots[position(slots, pair)].record())
}

proof fn lemma_position(slots: Seq<Slot>, i: int)
    requires
        distinct(slots),
        0 <= i < slots.len(),
    ensures
        holds(slots, slots[i].pair()),
        position(slots, slots[i].pair()) == i,
        rows_of(slots).contains_key(slots[i].pair()),
        rows_of(slots)[slots[i].pair()] == slots[i].record(),
{
    assert(at(slots, slots[i].pair(), i));
}

proof fn lemma_set(slots: Seq<Slot>, i: int, slot: Slot)
    requires
        distinct(slots),
        0 <= i < slots.len(),
        slot.pair() == slots[i].pair(),
    ensures
        distinct(slots.update(i, slot)),
        rows_of(slots.update(i, slot)) == rows_of(slots).insert(slot.pair(), slot.record()),
{
    let after = slots.update(i, slot);
    assert forall|pair: Pair| holds(after, pair) == holds(slots, pair) by {
        if holds(after, pair) {
            let k = position(after, pair);
            assert(at(slots, pair, k));
        }
        if holds(slots, pair) {
            let k = position(slots, pair);
            assert(at(after, pair, k));
        }
    }
    assert forall|pair: Pair| holds(after, pair) implies #[trigger] rows_of(after)[pair] == rows_of(
        slots,
    ).insert(slot.pair(), slot.record())[pair] by {
        let k = position(after, pair);
        lemma_position(after, k);
        if pair != slot.pair() {
            lemma_position(slots, k);
        } else {
            lemma_position(after, i);
        }
    }
    lemma_position(slots, i);
}

proof fn lemma_push(slots: Seq<Slot>, slot: Slot)
    requires
        distinct(slots),
        !holds(slots, slot.pair()),
    ensures
        distinct(slots.push(slot)),
        rows_of(slots.push(slot)) == rows_of(slots).insert(slot.pair(), slot.record()),
{
    let after = slots.push(slot);
    assert(distinct(after)) by {
        assert forall|a: int, b: int| 0 <= a < b < after.len() implies (#[trigger] after[a]).pair()
            != (#[trigger] after[b]).pair() by {
            if b == slots.len() {
                assert(!at(slots, slot.pair(), a));
            }
        }
    }
    let last = slots.len() as int;
    assert(at(after, slot.pair(), last));
    assert forall|pair: Pair| holds(after, pair) == (holds(slots, pair) || pair == slot.pair()) by {
        if holds(after, pair) && pair != slot.pair() {
            let k = position(after, pair);
            assert(at(slots, pair, k));
        }
        if holds(slots, pair) {
            let k = position(slots, pair);
            assert(at(after, pair, k));
        }
    }
    assert forall|pair: Pair| holds(after, pair) implies #[trigger] rows_of(after)[pair] == rows_of(
        slots,
    ).insert(slot.pair(), slot.record())[pair] by {
        let k = position(after, pair);
        lemma_position(after, k);
        if pair != slot.pair() {
            lemma_position(slots, k);
        } else {
            lemma_position(after, last);
        }
    }
}

proof fn lemma_remove(slots: Seq<Slot>, i: int)
    requires
        distinct(slots),
        0 <= i < slots.len(),
    ensures
        distinct(slots.remove(i)),
        rows_of(slots.remove(i)) == rows_of(slots).remove(slots[i].pair()),
{
    let after = slots.remove(i);
    let gone = slots[i].pair();
    assert forall|a: int| 0 <= a < after.len() implies #[trigger] after[a] == slots[if a < i {
        a
    } else {
        a + 1
    }] by {}
    assert forall|pair: Pair| holds(after, pair) == (holds(slots, pair) && pair != gone) by {
        if holds(after, pair) {
            let k = position(after, pair);
            assert(at(slots, pair, if k < i { k } else { k + 1 }));
        }
        if holds(slots, pair) && pair != gone {
            let k = position(slots, pair);
            assert(at(after, pair, if k < i { k } else { k - 1 }));
        }
    }
    assert forall|pair: Pair| holds(after, pair) implies #[trigger] rows_of(after)[pair] == rows_of(
        slots,
    )[pair] by {
        let k = position(after, pair);
        lemma_position(after, k);
        lemma_position(slots, if k < i { k } else { k + 1 });
    }
}

/// No name stands before one that it does not come before in the order of
/// texts.
spec fn ascending(names: Seq<String>) -> bool {
    forall|i: int, j: int|
        0 <= i < j < names.len() ==> text_before((#[trigger] names[i])@, (#[trigger] names[j])@)
}

/// Whether `names` holds `name`.
spec fn lists(names: Seq<String>, name: Seq<char>) -> bool {
    exists|i: int| 0 <= i < names.len() && (#[trigger] names[i])@ == name
}

/// Puts `name` in its place among `names`, unless it is there.
fn insert_name(names: &mut Vec<String>, name: &str)
    requires
        ascending(old(names)@),
    ensures
        ascending(final(names)@),
        forall|other: Seq<char>|
            lists(final(names)@, other) == (lists(old(names)@, other) || other == name@),
{
    let ghost before = names@;
    let mut i: usize = 0;
    while i < names.len() && comes_before(names[i].as_str(), name)
        invariant
            names@ == before,
            i <= names@.len(),
            forall|j: int| 0 <= j < i ==> text_before((#[trigger] names@[j])@, name@),
        decreases names.len() - i,
    {
        i += 1;
    }
    if i < names.len() && same_text(names[i].as_str(), name) {
        return ;
    }
    let owned = name.to_owned();
    names.insert(i, owned);
    proof {
        let after = names@;
        assert forall|a: int, b: int| 0 <= a < b < after.len() implies text_before(
            (#[trigger] after[a])@,
            (#[trigger] after[b])@,
        ) by {
            if a == i {
                let first = before[i as int];
                lemma_text_order(name@, first@, before[b - 1]@);
                lemma_text_order(first@, name@, name@);
            }
        }
        assert forall|other: Seq<char>| lists(after, other) == (lists(before, other) || other
            == name@) by {
            if lists(before, other) {
                let k = choose|k: int| 0 <= k < before.len() && (#[trigger] before[k])@ == other;
                assert(after[if k < i { k } else { k + 1 }] == before[k]);
            }
            if other == name@ {
                assert(after[i as int]@ == other);
            }
        }
    }
}

/// An entry store in memory.
pub struct MemoryStorage {
    slots: Vec<Slot>,
}

impl MemoryStorage {
    #[verifier::type_invariant]
    spec fn well_formed(self) -> bool {
        distinct(self.slots@)
    }

    /// A store without rows.
    pub fn new() -> (r: MemoryStorage)
        ensures
            r.rows() == Rows::empty(),
    {
        let r = MemoryStorage { slots: Vec::new() };
        assert(r.rows() =~= Rows::empty());
        r
    }

    /// The slot of a pair.
    fn locate(&self, bucket: &str, key: &str) -> (r: Option<usize>)
        ensures
            match r {
                Some(i) => at(self.slots@, (bucket@, key@), i as int),
                None => !holds(self.slots@, (bucket@, key@)),
            },
    {
        let mut i: usize = 0;
        while i < self.slots.len()
            invariant
                i <= self.slots@.len(),
                forall|j: int| 0 <= j < i ==> !at(self.slots@, (bucket@, key@), j),
            decreases self.slots.len() - i,
        {
            if same_text(self.slots[i].bucket.as_str(), bucket) && same_text(
                self.slots[i].key.as_str(),
                key,
            ) {
                return Some(i);
            }
            i += 1;
        }
        None
    }

    /// When the row under a pair was created and when it was last modified.
    pub fn timestamps(&self, bucket: &str, key: &str) -> (r: Option<(u64, Option<u64>)>)
        ensures
            match r {
                Some((created_on, modified_on)) => self.rows().contains_key((bucket@, key@))
                    && self.rows()[(bucket@, key@)].created_on == created_on && self.rows()[(
                    bucket@,
                    key@,
                )].modified_on == modified_on,
                None => !self.rows().contains_key((bucket@, key@)),
            },
    {
        proof {
            use_type_invariant(self);
        }
        match self.locate(bucket, key) {
            Some(i) => {
                proof {
                    lemma_position(self.slots@, i as int);
                }
                Some((self.slots[i].created_on, self.slots[i].modified_on))
            },
            None => None,
        }
    }
}

impl Storage for MemoryStorage {
    closed spec fn rows(&self) -> Rows {
        rows_of(self.slots@)
    }

    open spec fn dependable(&self) -> bool {
        true
    }

    fn lookup_entry(&self, bucket: &str, key: &str) -> (r: Result<Option<Entry>, Error>) {
        proof {
            use_type_invariant(self);
        }
        match self.locate(bucket, key) {
            Some(i) => {
                proof {
                    lemma_position(self.slots@, i as int);
                }
                let slot = &self.slots[i];
                Ok(
                    Some(
                        Entry::from_row(
                            slot.bucket.clone(),
                            slot.key.clone(),
                            slot.value.clone(),
                            slot.created_on,
                            slot.modified_on,
                        ),
                    ),
                )
            },
            None => Ok(None),
        }
    }

    fn store_entry(&mut self, entry: Entry) -> (r: Result<(), Error>) {
        proof {
            use_type_invariant(&*self);
        }
        let ghost before = self.slots@;
        match self.locate(entry.bucket.as_str(), entry.key.as_str()) {
            Some(i) => {
                let created_on: u64 = self.slots[i].created_on;
                let slot = Slot {
                    bucket: entry.bucket,
                    key: entry.key,
                    value: entry.value,
                    created_on,
                    modified_on: Some(entry.created_on),
                };
                proof {
                    lemma_position(before, i as int);
                    lemma_set(before, i as int, slot);
                }
                let mut slots = Vec::new();
                std::mem::swap(&mut self.slots, &mut slots);
                slots.set(i, slot);
                self.slots = slots;
            },
            None => {
                let slot = Slot {
                    bucket: entry.bucket,
                    key: entry.key,
                    value: entry.value,
                    created_on: entry.created_on,
                    modified_on: None,
                };
                proof {
                    lemma_push(before, slot);
                }
                let mut slots = Vec::new();
                std::mem::swap(&mut self.slots, &mut slots);
                slots.push(slot);
                self.slots = slots;
            },
        }
        Ok(())
    }

    fn delete_entry(&mut self, bucket: &str, key: &str) -> (r: Result<(), Error>) {
        proof {
            use_type_invariant(&*self);
        }
        let ghost before = self.slots@;
        match self.locate(bucket, key) {
            Some(i) => {
                proof {
                    lemma_remove(before, i as int);
                }
                let mut slots = Vec::new();
                std::mem::swap(&mut self.slots, &mut slots);
                let _ = slots.remove(i);
                self.slots = slots;
            },
            None => {},
        }
        Ok(())
    }

    fn list_buckets(&self) -> (r: Result<Vec<String>, Error>) {
        proof {
            use_type_invariant(self);
        }
        let mut names: Vec<String> = Vec::new();
        let mut i: usize = 0;
        while i < self.slots.len()
            invariant
                i <= self.slots@.len(),
                ascending(names@),
                forall|name: Seq<char>|
                    lists(names@, name) == exists|j: int|
                        0 <= j < i && (#[trigger] self.slots@[j]).bucket@ == name,
            decreases self.slots.len() - i,
        {
            insert_name(&mut names, self.slots[i].bucket.as_str());
            proof {
                assert forall|name: Seq<char>| lists(names@, name) == exists|j: int|
                    0 <= j < i + 1 && (#[trigger] self.slots@[j]).bucket@ == name by {}
            }
            i += 1;
        }
        proof {
            let rows = self.rows();
            let views = text_views(names@);
            assert forall|a: int| 0 <= a < views.len() implies holds_bucket(
                rows,
                #[trigger] views[a],
            ) by {
                assert(lists(names@, names@[a]@));
                let j = choose|j: int|
                    0 <= j < i && (#[trigger] self.slots@[j]).bucket@ == names@[a]@;
                lemma_position(self.slots@, j);
            }
            assert forall|bucket: Seq<char>, key: Seq<char>| #[trigger]
                rows.contains_key((bucket, key)) implies views.contains(bucket) by {
                assert(lists(names@, bucket));
                let a = choose|a: int| 0 <= a < names@.len() && (#[trigger] names@[a])@ == bucket;
                assert(views[a] == bucket);
            }
        }
        Ok(names)
    }

    fn list_entries(&self, bucket: &str) -> (r: Result<Vec<Entry>, Error>) {
        proof {
            use_type_invariant(self);
        }
        let mut entries: Vec<Entry> = Vec::new();
        let ghost mut origin: Seq<int> = Seq::empty();
        let mut i: usize = 0;
        while i < self.slots.len()
            invariant
                distinct(self.slots@),
                i <= self.slots@.len(),
                origin.len() == entries@.len(),
                forall|a: int|
                    0 <= a < origin.len() ==> 0 <= #[trigger] origin[a] < i
                        && self.slots@[origin[a]].bucket@ == bucket@
                        && entries@[a]@ == entry_of(
                        self.slots@[origin[a]].pair(),
                        self.slots@[origin[a]].record(),
                    ),
                forall|a: int, b: int|
                    0 <= a < b < origin.len() ==> #[trigger] origin[a] < #[trigger] origin[b],
                forall|j: int|
                    0 <= j < i && (#[trigger] self.slots@[j]).bucket@ == bucket@ ==> exists|a: int|
                        0 <= a < origin.len() && #[trigger] origin[a] == j,
            decreases self.slots.len() - i,
        {
            let slot = &self.slots[i];
            if same_text(slot.bucket.as_str(), bucket) {
                let ghost earlier = origin;
                entries.push(
                    Entry::from_row(
                        slot.bucket.clone(),
                        slot.key.clone(),
                        slot.value.clone(),
                        slot.created_on,
                        slot.modified_on,
                    ),
                );
                proof {
                    origin = origin.push(i as int);
                    assert forall|j: int|
                        0 <= j < i + 1 && (#[trigger] self.slots@[j]).bucket@
                            == bucket@ implies exists|a: int|
                        0 <= a < origin.len() && #[trigger] origin[a] == j by {
                        if j < i {
                            let a = choose|a: int|
                                0 <= a < earlier.len() && #[trigger] earlier[a] == j;
                            assert(origin[a] == j);
                        } else {
                            assert(origin[earlier.len() as int] == j);
                        }
                    }
                }
            }
            i += 1;
        }
        proof {
            let rows = self.rows();
            let views = entry_views(entries@);
            assert forall|a: int| 0 <= a < views.len() implies found(
                rows,
                bucket@,
                (#[trigger] views[a]).key,
            ) == Some(views[a]) by {
                lemma_position(self.slots@, origin[a]);
            }
            assert forall|a: int, b: int| 0 <= a < b < views.len() implies (#[trigger] views[a]).key
                != (#[trigger] views[b]).key by {
                assert(self.slots@[origin[a]].pair() != self.slots@[origin[b]].pair());
            }
            assert forall|key: Seq<char>| #[trigger]
                rows.contains_key((bucket@, key)) implies exists|a: int|
                0 <= a < views.len() && (#[trigger] views[a]).key == key by {
                let j = position(self.slots@, (bucket@, key));
                let a = choose|a: int| 0 <= a < origin.len() && #[trigger] origin[a] == j;
                assert(views[a].key == key);
            }
        }
        Ok(entries)
    }
}

} // verus!
