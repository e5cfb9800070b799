//! The record collection as a map from `(user_id, step_id)` to the record
//! stored there, and an in-memory store that holds one.

use crate::record::{RecordKey, Steps, StepsView};
use vstd::prelude::*;

verus! {

/// The contents of a store: each record under its key.
pub type StoreView = Map<RecordKey, StepsView>;

/// Whether `record` belongs to `user_id` and was written strictly after `since`.
pub open spec fn written_since(record: StepsView, user_id: Seq<char>, since: u64) -> bool {
    record.user_id == user_id && record.timestamp > since
}

/// The records of `store` that belong to `user_id` and were written strictly
/// after `since`.
pub open spec fn matching(store: StoreView, user_id: Seq<char>, since: u64) -> StoreView {
    Map::new(
        |key: RecordKey| store.dom().contains(key) && written_since(store[key], user_id, since),
        |key: RecordKey| store[key],
    )
}

/// Whether every record of `store` sits under its own key, and there are
/// finitely many.
pub open spec fn well_keyed(store: StoreView) -> bool {
    &&& store.dom().finite()
    &&& forall|key: RecordKey| store.dom().contains(key) ==> (#[trigger] store[key]).key() == key
}

/// Whether no two records of the sequence share a key.
pub open spec fn distinct_keys(records: Seq<StepsView>) -> bool {
    forall|i: int, j: int|
        0 <= i < j < records.len() ==> (#[trigger] records[i]).key() != (#[trigger] records[j]).key()
}

/// Whether `records` holds each record of `store` exactly once, in some order.
pub open spec fn lists(records: Seq<StepsView>, store: StoreView) -> bool {
    &&& distinct_keys(records)
    &&& forall|i: int|
        0 <= i < records.len() ==> store.dom().contains((#[trigger] records[i]).key())
            && store[records[i].key()] == records[i]
    &&& forall|key: RecordKey|
        store.dom().contains(key) ==> exists|i: int|
            0 <= i < records.len() && (#[trigger] records[i]).key() == key
}

/// The values of a sequence of records.
pub open spec fn record_views(records: Seq<Steps>) -> Seq<StepsView> {
    records.map_values(|record: Steps| record@)
}

/// The map that results from writing the records one after the other.
spec fn as_map(records: Seq<StepsView>) -> StoreView
    decreases records.len(),
{
    if records.len() == 0 {
        Map::empty()
    } else {
        as_map(records.drop_last()).insert(records.last().key(), records.last())
    }
}

/// Dropping the last record keeps the keys distinct.
proof fn lemma_front_distinct(records: Seq<StepsView>)
    requires
        distinct_keys(records),
        records.len() > 0,
    ensures
        distinct_keys(records.drop_last()),
{
    let front = records.drop_last();
    assert forall|a: int, b: int| 0 <= a < b < front.len() implies (#[trigger] front[a]).key()
        != (#[trigger] front[b]).key() by {
        assert(records[a].key() != records[b].key());
    }
}

/// A key is in the map exactly if some record of the sequence has it.
proof fn lemma_as_map_dom(records: Seq<StepsView>, key: RecordKey)
    ensures
        as_map(records).dom().contains(key) <==> exists|i: int|
            0 <= i < records.len() && (#[trigger] records[i]).key() == key,
        as_map(records).dom().finite(),
    decreases records.len(),
{
    if records.len() > 0 {
        let front = records.drop_last();
        lemma_as_map_dom(front, key);
        if as_map(records).dom().contains(key) {
            if key == records.last().key() {
                assert(records[records.len() - 1].key() == key);
            } else {
                let i = choose|i: int| 0 <= i < front.len() && (#[trigger] front[i]).key() == key;
                assert(records[i].key() == key);
            }
        }
        if exists|i: int| 0 <= i < records.len() && (#[trigger] records[i]).key() == key {
            let i = choose|i: int| 0 <= i < records.len() && (#[trigger] records[i]).key() == key;
            if i < front.len() {
                assert(front[i].key() == key);
            }
        }
    }
}

/// With distinct keys, each record of the sequence is the one stored under
/// its key.
proof fn lemma_as_map_value(records: Seq<StepsView>, i: int)
    requires
        distinct_keys(records),
        0 <= i < records.len(),
    ensures
        as_map(records).dom().contains(records[i].key()),
        as_map(records)[records[i].key()] == records[i],
    decreases records.len(),
{
    let front = records.drop_last();
    if i < records.len() - 1 {
        lemma_front_distinct(records);
        lemma_as_map_value(front, i);
        assert(front[i] == records[i]);
        assert(records[i].key() != records[records.len() - 1].key());
    }
}

/// The map of a sequence with distinct keys is well keyed, and the sequence
/// lists it.
proof fn lemma_as_map_lists(records: Seq<StepsView>)
    requires
        distinct_keys(records),
    ensures
        well_keyed(as_map(records)),
        lists(records, as_map(records)),
{
    let store = as_map(records);
    assert forall|i: int| 0 <= i < records.len() implies store.dom().contains(
        (#[trigger] records[i]).key(),
    ) && store[records[i].key()] == records[i] by {
        lemma_as_map_value(records, i);
    }
    assert forall|key: RecordKey| store.dom().contains(key) implies exists|i: int|
        0 <= i < records.len() && (#[trigger] records[i]).key() == key by {
        lemma_as_map_dom(records, key);
    }
    assert forall|key: RecordKey| store.dom().contains(key) implies (#[trigger] store[key]).key()
        == key by {
        lemma_as_map_dom(records, key);
        let i = choose|i: int| 0 <= i < records.len() && (#[trigger] records[i]).key() == key;
        lemma_as_map_value(records, i);
    }
    lemma_as_map_dom(records, arbitrary());
}

/// Replacing the record that holds a key by another with the same key
/// overwrites that key in the map.
proof fn lemma_as_map_update(records: Seq<StepsView>, i: int, record: StepsView)
    requires
        distinct_keys(records),
        0 <= i < records.len(),
        records[i].key() == record.key(),
    ensures
        as_map(records.update(i, record)) == as_map(records).insert(record.key(), record),
        distinct_keys(records.update(i, record)),
    decreases records.len(),
{
    let changed = records.update(i, record);
    let front = records.drop_last();
    let last = records.last();
    assert(distinct_keys(changed)) by {
        assert forall|a: int, b: int| 0 <= a < b < changed.len() implies (#[trigger] changed[a]).key()
            != (#[trigger] changed[b]).key() by {
            assert(records[a].key() != records[b].key());
        }
    }
    if i == records.len() - 1 {
        assert(changed.drop_last() == front);
        assert(as_map(changed) == as_map(records).insert(record.key(), record));
    } else {
        lemma_front_distinct(records);
        lemma_as_map_update(front, i, record);
        assert(changed.drop_last() == front.update(i, record));
        assert(changed.last() == last);
        assert(records[i].key() != records[records.len() - 1].key());
        assert(as_map(changed) == as_map(records).insert(record.key(), record));
    }
}

/// With distinct keys the map holds as many records as the sequence.
proof fn lemma_as_map_len(records: Seq<StepsView>)
    requires
        distinct_keys(records),
    ensures
        as_map(records).dom().finite(),
        as_map(records).dom().len() == records.len(),
    decreases records.len(),
{
    lemma_as_map_dom(records, arbitrary());
    if records.len() > 0 {
        let front = records.drop_last();
        lemma_front_distinct(records);
        lemma_as_map_len(front);
        let key = records.last().key();
        assert(!as_map(front).dom().contains(key)) by {
            lemma_as_map_dom(front, key);
            if exists|i: int| 0 <= i < front.len() && (#[trigger] front[i]).key() == key {
                let i = choose|i: int| 0 <= i < front.len() && (#[trigger] front[i]).key() == key;
                assert(records[i].key() != records[records.len() - 1].key());
            }
        }
    }
}

/// The place of the record with the key `(user_id, step_id)` among `items`,
/// if one of them has it.
fn position_of(items: &Vec<Steps>, user_id: &String, step_id: u128) -> (place: Option<usize>)
    ensures
        match place {
            Some(at) => at < items.len() && items[at as int]@.key() == (user_id@, step_id),
            None => forall|i: int|
                0 <= i < items.len() ==> (#[trigger] record_views(items@)[i]).key() != (
                    user_id@,
                    step_id,
                ),
        },
{
    let mut i: usize = 0;
    while i < items.len()
        invariant
            i <= items.len(),
            forall|j: int|
                0 <= j < i ==> (#[trigger] record_views(items@)[j]).key() != (user_id@, step_id),
        decreases items.len() - i,
    {
        if items[i].has_key(user_id, step_id) {
            return Some(i);
        }
        i += 1;
    }
    None
}

/// A store that keeps its records in memory.
pub struct MemoryStore {
    items: Vec<Steps>,
}

impl View for MemoryStore {
    type V = StoreView;

    closed spec fn view(&self) -> StoreView {
        as_map(record_views(self.items@))
    }
}

impl MemoryStore {
    #[verifier::type_invariant]
    spec fn keys_are_distinct(self) -> bool {
        distinct_keys(record_views(self.items@))
    }

    /// A store without records.
    pub fn new() -> (store: Self)
        ensures
            store@ == Map::<RecordKey, StepsView>::empty(),
    {
        MemoryStore { items: Vec::new() }
    }

    /// The number of records in the store.
    pub fn len(&self) -> (count: usize)
        ensures
            well_keyed(self@),
            count == self@.dom().len(),
    {
        proof {
            use_type_invariant(self);
            lemma_as_map_len(record_views(self.items@));
            lemma_as_map_lists(record_views(self.items@));
        }
        self.items.len()
    }

    /// Writes `record`, creating the item at its key or overwriting the one
    /// that is there.
    pub fn put(&mut self, record: Steps)
        ensures
            final(self)@ == old(self)@.insert(record@.key(), record@),
            well_keyed(final(self)@),
    {
        proof {
            use_type_invariant(&*self);
            lemma_as_map_lists(record_views(self.items@));
        }
        let ghost before = record_views(self.items@);
        let mut items: Vec<Steps> = Vec::new();
        core::mem::swap(&mut self.items, &mut items);
        match position_of(&items, &record.user_id, record.step_id) {
            Some(at) => {
                proof {
                    lemma_as_map_update(before, at as int, record@);
                    assert(record_views(items@.update(at as int, record)) == before.update(
                        at as int,
                        record@,
                    ));
                }
                items.set(at, record);
            },
            None => {
                proof {
                    let after = before.push(record@);
                    assert(record_views(items@.push(record)) == after);
                    assert(after.drop_last() == before);
                    assert(distinct_keys(after));
                }
                items.push(record);
            },
        }
        core::mem::swap(&mut self.items, &mut items);
    }

    /// Every record of `user_id` whose timestamp is strictly greater than
    /// `since`.
    pub fn query_by_user_since(&self, user_id: &str, since: u64) -> (found: Vec<Steps>)
        ensures
            lists(record_views(found@), matching(self@, user_id@, since)),
    {
        proof {
            use_type_invariant(self);
        }
        let wanted: String = user_id.to_owned();
        let ghost source = record_views(self.items@);
        let ghost mut picked: Seq<int> = Seq::empty();
        let mut found: Vec<Steps> = Vec::new();
        let mut i: usize = 0;
        while i < self.items.len()
            invariant
                i <= self.items.len(),
                wanted@ == user_id@,
                source == record_views(self.items@),
                found.len() == picked.len(),
                forall|j: int|
                    0 <= j < picked.len() ==> 0 <= (#[trigger] picked[j]) < i && found[j]@
                        == source[picked[j]] && written_since(source[picked[j]], user_id@, since),
                forall|a: int, b: int|
                    0 <= a < b < picked.len() ==> (#[trigger] picked[a]) < (#[trigger] picked[b]),
                forall|k: int|
                    0 <= k < i && written_since(#[trigger] source[k], user_id@, since)
                        ==> exists|j: int| 0 <= j < picked.len() && #[trigger] picked[j] == k,
            decreases self.items.len() - i,
        {
            let item = &self.items[i];
            if item.user_id == wanted && item.timestamp > since {
                found.push(item.clone());
                proof {
                    let ghost earlier = picked;
                    picked = picked.push(i as int);
                    assert forall|k: int|
                        0 <= k < i + 1 && written_since(
                            #[trigger] source[k],
                            user_id@,
                            since,
                        ) implies exists|j: int| 0 <= j < picked.len() && #[trigger] picked[j]
                        == k by {
                        if k < i {
                            let j = choose|j: int| 0 <= j < earlier.len() && #[trigger] earlier[j] == k;
                            assert(picked[j] == k);
                        } else {
                            assert(picked[picked.len() - 1] == k);
                        }
                    }
                }
            }
            i += 1;
        }
        proof {
            let store = self@;
            let hits = matching(store, user_id@, since);
            let views = record_views(found@);
            assert forall|j: int| 0 <= j < views.len() implies hits.dom().contains(
                (#[trigger] views[j]).key(),
            ) && hits[views[j].key()] == views[j] by {
                lemma_as_map_value(source, picked[j]);
            }
            assert forall|a: int, b: int| 0 <= a < b < views.len() implies (#[trigger] views[a]).key()
                != (#[trigger] views[b]).key() by {
                assert(picked[a] < picked[b]);
                assert(source[picked[a]].key() != source[picked[b]].key());
            }
            assert forall|key: RecordKey| hits.dom().contains(key) implies exists|j: int|
                0 <= j < views.len() && (#[trigger] views[j]).key() == key by {
                lemma_as_map_dom(source, key);
                let k = choose|k: int| 0 <= k < source.len() && (#[trigger] source[k]).key() == key;
                lemma_as_map_value(source, k);
                let j = choose|j: int| 0 <= j < picked.len() && #[trigger] picked[j] == k;
                assert(views[j].key() == key);
            }
        }
        found
    }

    /// Every record of the store.
    pub fn scan_all(&self) -> (all: Vec<Steps>)
        ensures
            well_keyed(self@),
            lists(record_views(all@), self@),
    {
        proof {
            use_type_invariant(self);
            lemma_as_map_lists(record_views(self.items@));
        }
        let mut all: Vec<Steps> = Vec::new();
        let mut i: usize = 0;
        while i < self.items.len()
            invariant
                i <= self.items.len(),
                record_views(all@) == record_views(self.items@).take(i as int),
            decreases self.items.len() - i,
        {
            let ghost before = all@;
            all.push(self.items[i].clone());
            assert(record_views(all@) == record_views(before).push(self.items[i as int]@));
            assert(record_views(self.items@).take(i + 1) == record_views(self.items@).take(
                i as int,
            ).push(self.items[i as int]@));
            i += 1;
        }
        assert(record_views(self.items@).take(i as int) == record_views(self.items@));
        all
    }
}

} // verus!
