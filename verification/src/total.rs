//! The aggregate over all stored records: the sum of their step counts and
//! the instant at which it was computed.

use crate::clock::{now_millis, MAX_TIMESTAMP};
use crate::codec::{decode, decoded, RawItem, RawItemView};
use crate::error::ServiceError;
use crate::record::{RecordKey, Steps, StepsView};
use crate::store::{lists, record_views, well_keyed, MemoryStore, StoreView};
use vstd::prelude::*;
use vstd::seq_lib::group_to_multiset_ensures;

verus! {

/// The sum of the step counts of `records`.
pub open spec fn sum_steps(records: Seq<StepsView>) -> nat
    decreases records.len(),
{
    if records.len() == 0 {
        0
    } else {
        sum_steps(records.drop_last()) + records.last().steps as nat
    }
}

/// The sum of the step counts of all records of `store`.
pub open spec fn store_total(store: StoreView) -> nat {
    sum_steps(choose|records: Seq<StepsView>| lists(records, store))
}

/// A total and the time at which it was computed.
#[derive(Debug, Clone, Copy, PartialEq, Eq, Structural)]
pub struct Total {
    pub total_steps: u128,
    pub computed_at_ms: u64,
}

/// The sum over a sequence is that over its two parts.
pub proof fn lemma_sum_concat(front: Seq<StepsView>, back: Seq<StepsView>)
    ensures
        sum_steps(front + back) == sum_steps(front) + sum_steps(back),
    decreases back.len(),
{
    if back.len() == 0 {
        assert(front + back == front);
    } else {
        lemma_sum_concat(front, back.drop_last());
        assert((front + back).drop_last() == front + back.drop_last());
    }
}

/// Taking one record out lowers the sum by its step count.
pub proof fn lemma_sum_remove(records: Seq<StepsView>, i: int)
    requires
        0 <= i < records.len(),
    ensures
        sum_steps(records) == sum_steps(records.remove(i)) + records[i].steps,
{
    let front = records.subrange(0, i);
    let back = records.subrange(i + 1, records.len() as int);
    let one = seq![records[i]];
    assert(records == front + one + back);
    lemma_sum_concat(front + one, back);
    lemma_sum_concat(front, one);
    lemma_sum_concat(front, back);
    assert(one.drop_last() == Seq::<StepsView>::empty());
    assert(sum_steps(one) == records[i].steps) by {
        reveal_with_fuel(sum_steps, 2);
    }
}

/// The sum does not depend on the order of the records.
pub proof fn lemma_sum_permutation(first: Seq<StepsView>, second: Seq<StepsView>)
    requires
        first.to_multiset() == second.to_multiset(),
    ensures
        sum_steps(first) == sum_steps(second),
    decreases first.len(),
{
    broadcast use group_to_multiset_ensures;

    if first.len() == 0 {
        assert(second.to_multiset().len() == 0);
        assert(second.len() == 0);
    } else {
        let record = first.last();
        assert(first.contains(record)) by {
            assert(first[first.len() - 1] == record);
        }
        assert(first.to_multiset().count(record) > 0);
        assert(second.contains(record));
        let at = second.index_of(record);
        lemma_sum_remove(second, at);
        assert(first.drop_last() == first.remove(first.len() - 1));
        lemma_sum_permutation(first.drop_last(), second.remove(at));
    }
}

/// No sum exceeds the largest step count times the number of records.
pub proof fn lemma_sum_bound(records: Seq<StepsView>)
    ensures
        sum_steps(records) <= records.len() * u64::MAX,
    decreases records.len(),
{
    if records.len() > 0 {
        lemma_sum_bound(records.drop_last());
        assert((records.len() - 1) * u64::MAX + u64::MAX == records.len() * u64::MAX)
            by (nonlinear_arith);
    }
}

/// Adds up the step counts of `records`.
pub fn total_steps(records: &Vec<Steps>) -> (total: u128)
    ensures
        total == sum_steps(record_views(records@)),
{
    let ghost views = record_views(records@);
    let mut total: u128 = 0;
    let mut i: usize = 0;
    while i < records.len()
        invariant
            i <= records.len(),
            views == record_views(records@),
            total == sum_steps(views.take(i as int)),
        decreases records.len() - i,
    {
        proof {
            assert(views.take(i + 1).drop_last() == views.take(i as int));
            lemma_sum_bound(views.take(i + 1));
            assert((i + 1) * u64::MAX <= u64::MAX * 0x1_0000_0000_0000_0000) by (nonlinear_arith)
                requires
                    i + 1 <= 0x1_0000_0000_0000_0000,
            ;
        }
        total = total + records[i].steps as u128;
        i += 1;
    }
    assert(views.take(i as int) == views);
    total
}

/// Two sequences that list the same store hold the same records.
pub proof fn lemma_listings_are_permutations(
    first: Seq<StepsView>,
    second: Seq<StepsView>,
    store: StoreView,
)
    requires
        lists(first, store),
        lists(second, store),
    ensures
        first.to_multiset() == second.to_multiset(),
{
    broadcast use group_to_multiset_ensures;

    lemma_listing_counts(first, store);
    lemma_listing_counts(second, store);
    assert(first.to_multiset() =~= second.to_multiset());
}

/// A listing holds each record of the store once and nothing else.
proof fn lemma_listing_counts(records: Seq<StepsView>, store: StoreView)
    requires
        lists(records, store),
    ensures
        forall|record: StepsView|
            #[trigger] records.to_multiset().count(record) == if store.dom().contains(record.key())
                && store[record.key()] == record {
                1nat
            } else {
                0nat
            },
{
    broadcast use group_to_multiset_ensures;

    assert(records.no_duplicates()) by {
        assert forall|i: int, j: int|
            0 <= i < records.len() && 0 <= j < records.len() && i != j implies records[i]
            != records[j] by {
            if i < j {
                assert(records[i].key() != records[j].key());
            } else {
                assert(records[j].key() != records[i].key());
            }
        }
    }
    records.lemma_multiset_has_no_duplicates();
    assert forall|record: StepsView|
        #[trigger] records.to_multiset().count(record) == if store.dom().contains(record.key())
            && store[record.key()] == record {
            1nat
        } else {
            0nat
        } by {
        if store.dom().contains(record.key()) && store[record.key()] == record {
            let i = choose|i: int|
                0 <= i < records.len() && (#[trigger] records[i]).key() == record.key();
            assert(records[i] == record);
            assert(records.contains(record));
            assert(records.to_multiset().contains(record));
        } else {
            if records.contains(record) {
                let i = choose|i: int| 0 <= i < records.len() && records[i] == record;
                assert(store.dom().contains(records[i].key()));
            }
        }
    }
}

/// Two scans of the same store add up to the same total, whatever order each
/// returns the records in.
pub proof fn lemma_scans_agree(first: Seq<StepsView>, second: Seq<StepsView>, store: StoreView)
    requires
        lists(first, store),
        lists(second, store),
    ensures
        sum_steps(first) == sum_steps(second),
{
    lemma_listings_are_permutations(first, second, store);
    lemma_sum_permutation(first, second);
}

/// The total of a store is the sum over any listing of it.
pub proof fn lemma_store_total(records: Seq<StepsView>, store: StoreView)
    requires
        lists(records, store),
    ensures
        store_total(store) == sum_steps(records),
{
    let chosen = choose|records: Seq<StepsView>| lists(records, store);
    lemma_scans_agree(chosen, records, store);
}

/// A store without records has the total zero.
pub proof fn lemma_empty_total()
    ensures
        store_total(Map::<RecordKey, StepsView>::empty()) == 0,
{
    lemma_store_total(Seq::<StepsView>::empty(), Map::<RecordKey, StepsView>::empty());
}

/// Every well keyed store has a listing.
pub proof fn lemma_listing_exists(store: StoreView)
    requires
        well_keyed(store),
    ensures
        exists|records: Seq<StepsView>| lists(records, store),
    decreases store.dom().len(),
{
    if store.dom().len() == 0 {
        assert(store.dom() =~= Set::<RecordKey>::empty());
        assert(lists(Seq::<StepsView>::empty(), store));
    } else {
        let key = store.dom().choose();
        let rest = store.remove(key);
        assert(well_keyed(rest));
        lemma_listing_exists(rest);
        let listed = choose|records: Seq<StepsView>| lists(records, rest);
        lemma_listing_extends(listed, rest, store[key]);
        assert(rest.insert(key, store[key]) =~= store);
    }
}

/// A listing of a store, followed by a record under a new key, lists the
/// store with that record written.
pub proof fn lemma_listing_extends(records: Seq<StepsView>, store: StoreView, record: StepsView)
    requires
        lists(records, store),
        !store.dom().contains(record.key()),
    ensures
        lists(records.push(record), store.insert(record.key(), record)),
{
    let longer = records.push(record);
    let after = store.insert(record.key(), record);
    assert forall|i: int| 0 <= i < longer.len() implies after.dom().contains(
        (#[trigger] longer[i]).key(),
    ) && after[longer[i].key()] == longer[i] by {
        if i < records.len() {
            assert(store.dom().contains(records[i].key()));
        }
    }
    assert forall|i: int, j: int| 0 <= i < j < longer.len() implies (#[trigger] longer[i]).key()
        != (#[trigger] longer[j]).key() by {
        if j < records.len() {
            assert(records[i].key() != records[j].key());
        } else {
            assert(store.dom().contains(records[i].key()));
        }
    }
    assert forall|key: RecordKey| after.dom().contains(key) implies exists|i: int|
        0 <= i < longer.len() && (#[trigger] longer[i]).key() == key by {
        if key == record.key() {
            assert(longer[records.len() as int].key() == key);
        } else {
            let i = choose|i: int| 0 <= i < records.len() && (#[trigger] records[i]).key() == key;
            assert(longer[i].key() == key);
        }
    }
}

/// Writing a record under a new key raises the total by its step count.
pub proof fn lemma_total_after_write(store: StoreView, record: StepsView)
    requires
        well_keyed(store),
        !store.dom().contains(record.key()),
    ensures
        store_total(store.insert(record.key(), record)) == store_total(store) + record.steps,
{
    lemma_listing_exists(store);
    let listed = choose|records: Seq<StepsView>| lists(records, store);
    lemma_listing_extends(listed, store, record);
    lemma_store_total(listed, store);
    lemma_store_total(listed.push(record), store.insert(record.key(), record));
    assert(listed.push(record).drop_last() == listed);
}

/// The total over the records of `store`, computed at `now_ms`.
pub fn aggregate_at(store: &MemoryStore, now_ms: u64) -> (total: Total)
    ensures
        total.total_steps == store_total(store@),
        total.computed_at_ms == now_ms,
{
    let records = store.scan_all();
    proof {
        lemma_store_total(record_views(records@), store@);
    }
    Total { total_steps: total_steps(&records), computed_at_ms: now_ms }
}

/// The total over the records of `store`, stamped with the current time,
/// which is a timestamp of at most [`MAX_TIMESTAMP`].
pub fn aggregate(store: &MemoryStore) -> (total: Total)
    ensures
        total.total_steps == store_total(store@),
        total.computed_at_ms <= MAX_TIMESTAMP,
{
    aggregate_at(store, now_millis())
}

/// The values of a sequence of stored items.
pub open spec fn item_views(items: Seq<RawItem>) -> Seq<RawItemView> {
    items.map_values(|item: RawItem| item@)
}

/// The records that the items decode to, if every one of them decodes.
pub open spec fn decoded_all(items: Seq<RawItemView>) -> Option<Seq<StepsView>> {
    if forall|i: int| 0 <= i < items.len() ==> (#[trigger] decoded(items[i])) is Some {
        Some(Seq::new(items.len(), |i: int| decoded(items[i]).unwrap()))
    } else {
        None
    }
}

/// The items of two pages decode exactly if those of each page do, to the
/// records of the first followed by those of the second.
pub proof fn lemma_decoded_all_concat(first: Seq<RawItemView>, second: Seq<RawItemView>)
    ensures
        decoded_all(first + second) == match (decoded_all(first), decoded_all(second)) {
            (Some(front), Some(back)) => Some(front + back),
            _ => None,
        },
{
    let both = first + second;
    if decoded_all(first) is None {
        let i = choose|i: int| 0 <= i < first.len() && !(#[trigger] decoded(first[i]) is Some);
        assert(both[i] == first[i]);
    } else if decoded_all(second) is None {
        let i = choose|i: int| 0 <= i < second.len() && !(#[trigger] decoded(second[i]) is Some);
        assert(both[first.len() + i] == second[i]);
    } else {
        assert forall|i: int| 0 <= i < both.len() implies (#[trigger] decoded(both[i])) is Some by {
            if i < first.len() {
                assert(both[i] == first[i]);
            } else {
                assert(both[i] == second[i - first.len()]);
            }
        }
        assert(decoded_all(both).unwrap() =~= decoded_all(first).unwrap() + decoded_all(
            second,
        ).unwrap());
    }
}

/// Decodes every item, or fails with `AggregationParseError` if one of them
/// does not decode.
pub fn decode_all(items: &Vec<RawItem>) -> (result: Result<Vec<Steps>, ServiceError>)
    ensures
        match result {
            Ok(records) => decoded_all(item_views(items@)) == Some(record_views(records@)),
            Err(error) => decoded_all(item_views(items@)) is None && error
                == ServiceError::AggregationParseError,
        },
{
    let ghost views = item_views(items@);
    let mut records: Vec<Steps> = Vec::new();
    let mut i: usize = 0;
    while i < items.len()
        invariant
            i <= items.len(),
            views == item_views(items@),
            records.len() == i,
            forall|j: int| 0 <= j < i ==> decoded(#[trigger] views[j]) == Some(records[j]@),
        decreases items.len() - i,
    {
        match decode(&items[i]) {
            Ok(record) => {
                records.push(record);
            },
            Err(error) => {
                assert(decoded(views[i as int]) is None);
                return Err(error);
            },
        }
        i += 1;
    }
    assert(decoded_all(views).unwrap() =~= record_views(records@));
    Ok(records)
}

/// An aggregation in progress: the records decoded from the pages of the
/// scan that have arrived so far.
pub struct Aggregation {
    records: Vec<Steps>,
}

impl View for Aggregation {
    type V = Seq<StepsView>;

    closed spec fn view(&self) -> Seq<StepsView> {
        record_views(self.records@)
    }
}

/// What follows a page of the scan.
pub enum AggregationStep {
    /// The store holds more: the next page is to be fetched.
    NextPage(Aggregation),
    /// The aggregation has ended, in a total or in a failure.
    Done(Result<Total, ServiceError>),
}

impl Aggregation {
    /// An aggregation that has seen no page yet.
    pub fn begin() -> (fresh: Self)
        ensures
            fresh@ == Seq::<StepsView>::empty(),
    {
        Aggregation { records: Vec::new() }
    }

    /// Takes in one page of the scan, `more` telling whether the store holds
    /// further pages.
    ///
    /// An item that does not decode ends the aggregation with
    /// `AggregationParseError`. Otherwise the page's records join those
    /// gathered, and after the last page the total over all of them is
    /// returned, stamped `now_ms`.
    pub fn absorb_at(self, page: &Vec<RawItem>, more: bool, now_ms: u64) -> (step: AggregationStep)
        ensures
            match step {
                AggregationStep::NextPage(next) => decoded_all(item_views(page@))
                    matches Some(records) && more && next@ == self@ + records,
                AggregationStep::Done(Ok(total)) => decoded_all(item_views(page@))
                    matches Some(records) && !more && total.total_steps == sum_steps(
                    self@ + records,
                ) && total.computed_at_ms == now_ms,
                AggregationStep::Done(Err(error)) => decoded_all(item_views(page@)) is None && error
                    == ServiceError::AggregationParseError,
            },
    {
        let mut records = self.records;
        let ghost gathered = record_views(records@);
        match decode_all(page) {
            Ok(mut decoded_page) => {
                let ghost added = record_views(decoded_page@);
                records.append(&mut decoded_page);
                assert(record_views(records@) == gathered + added);
                if more {
                    AggregationStep::NextPage(Aggregation { records })
                } else {
                    AggregationStep::Done(
                        Ok(Total { total_steps: total_steps(&records), computed_at_ms: now_ms }),
                    )
                }
            },
            Err(error) => AggregationStep::Done(Err(error)),
        }
    }

    /// Ends the aggregation because the store failed to deliver a page of
    /// the scan: the error is a `StorageError` with the cause that the store
    /// gave, and there is no total.
    pub fn scan_failed(self, cause: String) -> (step: AggregationStep)
        ensures
            step matches AggregationStep::Done(Err(error)) && error == (ServiceError::StorageError {
                cause,
            }),
    {
        AggregationStep::Done(Err(ServiceError::StorageError { cause }))
    }

    /// Takes in one page of the scan as [`Aggregation::absorb_at`] does, with
    /// the current time as the stamp of the total: a timestamp of at most
    /// [`MAX_TIMESTAMP`].
    pub fn absorb(self, page: &Vec<RawItem>, more: bool) -> (step: AggregationStep)
        ensures
            match step {
                AggregationStep::NextPage(next) => decoded_all(item_views(page@))
                    matches Some(records) && more && next@ == self@ + records,
                AggregationStep::Done(Ok(total)) => decoded_all(item_views(page@))
                    matches Some(records) && !more && total.total_steps == sum_steps(
                    self@ + records,
                ) && total.computed_at_ms <= MAX_TIMESTAMP,
                AggregationStep::Done(Err(error)) => decoded_all(item_views(page@)) is None && error
                    == ServiceError::AggregationParseError,
            },
    {
        self.absorb_at(page, more, now_millis())
    }
}

/// The total over stored items that arrived in one piece, stamped `now_ms`.
pub fn aggregate_items(items: &Vec<RawItem>, now_ms: u64) -> (result: Result<Total, ServiceError>)
    ensures
        match result {
            Ok(total) => decoded_all(item_views(items@)) matches Some(records) && total.total_steps
                == sum_steps(records) && total.computed_at_ms == now_ms,
            Err(error) => decoded_all(item_views(items@)) is None && error
                == ServiceError::AggregationParseError,
        },
{
    match decode_all(items) {
        Ok(records) => Ok(Total { total_steps: total_steps(&records), computed_at_ms: now_ms }),
        Err(error) => Err(error),
    }
}

} // verus!
