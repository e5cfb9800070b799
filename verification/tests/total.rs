use daily_steps::codec::{decode, encode, AttrValue, RawItem};
use daily_steps::error::ServiceError;
use daily_steps::record::Steps;
use daily_steps::store::MemoryStore;
use daily_steps::total::{
    aggregate, aggregate_at, aggregate_items, decode_all, total_steps, Aggregation, AggregationStep,
    Total,
};

fn record(user: &str, id: u128, steps: u64) -> Steps {
    Steps::new(user.to_string(), id, 1_700_000_000_000, steps)
}

fn text(value: &str) -> Option<AttrValue> {
    Some(AttrValue { s: Some(value.to_string()), n: None })
}

fn number(value: &str) -> Option<AttrValue> {
    Some(AttrValue { s: None, n: Some(value.to_string()) })
}

fn item(steps: &str) -> RawItem {
    RawItem {
        user_id: text("alice"),
        step_id: text("936da01f-9abd-4d9d-80c7-02af85c822a8"),
        timestamp: number("1700000000000"),
        steps: number(steps),
    }
}

#[test]
fn empty_collection_has_total_zero() {
    assert_eq!(total_steps(&Vec::new()), 0);
    assert_eq!(aggregate_at(&MemoryStore::new(), 9), Total { total_steps: 0, computed_at_ms: 9 });
    assert_eq!(aggregate_items(&Vec::new(), 9), Ok(Total { total_steps: 0, computed_at_ms: 9 }));
    assert_eq!(aggregate(&MemoryStore::new()).total_steps, 0);
}

#[test]
fn total_of_100_250_and_5_is_355() {
    let records = vec![record("a", 1, 100), record("b", 2, 250), record("c", 3, 5)];
    assert_eq!(total_steps(&records), 355);
}

#[test]
fn total_is_355_in_every_scan_order() {
    let orders: [[usize; 3]; 6] = [[0, 1, 2], [0, 2, 1], [1, 0, 2], [1, 2, 0], [2, 0, 1], [2, 1, 0]];
    let records = [record("a", 1, 100), record("b", 2, 250), record("c", 3, 5)];
    for order in orders.iter() {
        let scan: Vec<Steps> = order.iter().map(|&i| records[i].clone()).collect();
        assert_eq!(total_steps(&scan), 355);
        let mut store = MemoryStore::new();
        for entry in scan.iter() {
            store.put(entry.clone());
        }
        assert_eq!(aggregate_at(&store, 1).total_steps, 355);
        let items: Vec<RawItem> = scan.iter().map(encode).collect();
        assert_eq!(aggregate_items(&items, 1), Ok(Total { total_steps: 355, computed_at_ms: 1 }));
    }
}

#[test]
fn total_does_not_overflow_at_the_largest_step_counts() {
    let records = vec![record("a", 1, u64::MAX), record("b", 2, u64::MAX), record("c", 3, 1)];
    assert_eq!(total_steps(&records), 2 * u128::from(u64::MAX) + 1);
}

#[test]
fn aggregating_twice_gives_the_same_total() {
    let mut store = MemoryStore::new();
    store.put(record("a", 1, 100));
    store.put(record("b", 2, 250));
    store.put(record("a", 3, 5));
    let first = aggregate_at(&store, 10);
    let second = aggregate_at(&store, 20);
    assert_eq!(first.total_steps, 355);
    assert_eq!(second.total_steps, first.total_steps);
    assert_eq!(first.computed_at_ms, 10);
    assert_eq!(second.computed_at_ms, 20);
    assert_eq!(aggregate(&store).total_steps, aggregate(&store).total_steps);
    assert_eq!(store.len(), 3);
}

#[test]
fn aggregate_is_stamped_with_the_current_time() {
    let store = MemoryStore::new();
    let before = daily_steps::clock::now_millis();
    let total = aggregate(&store);
    let after = daily_steps::clock::now_millis();
    assert!(before <= total.computed_at_ms && total.computed_at_ms <= after);
}

#[test]
fn overwritten_record_counts_once() {
    let mut store = MemoryStore::new();
    store.put(record("a", 1, 100));
    store.put(record("a", 1, 40));
    assert_eq!(aggregate_at(&store, 0).total_steps, 40);
}

#[test]
fn stored_items_are_decoded_and_added_up() {
    let items = vec![item("100"), item("250"), item("5")];
    assert_eq!(aggregate_items(&items, 77), Ok(Total { total_steps: 355, computed_at_ms: 77 }));
    let decoded = decode_all(&items).unwrap();
    assert_eq!(decoded.len(), 3);
    assert_eq!(decoded[1].steps, 250);
    assert_eq!(decoded[1].step_id, 0x936da01f9abd4d9d80c702af85c822a8);
}

#[test]
fn one_malformed_item_fails_the_whole_aggregation() {
    let items = vec![item("100"), item("twelve"), item("5")];
    assert_eq!(aggregate_items(&items, 77), Err(ServiceError::AggregationParseError));
    assert_eq!(decode_all(&items), Err(ServiceError::AggregationParseError));
    let missing = RawItem { steps: None, ..item("1") };
    assert_eq!(aggregate_items(&vec![item("100"), missing], 77), Err(ServiceError::AggregationParseError));
}

#[test]
fn pages_are_gathered_until_the_last() {
    let first = vec![item("100"), item("250")];
    let second: Vec<RawItem> = Vec::new();
    let third = vec![item("5")];
    let scan = match Aggregation::begin().absorb_at(&first, true, 1) {
        AggregationStep::NextPage(scan) => scan,
        AggregationStep::Done(result) => panic!("ended early with {:?}", result),
    };
    let scan = match scan.absorb_at(&second, true, 2) {
        AggregationStep::NextPage(scan) => scan,
        AggregationStep::Done(result) => panic!("ended early with {:?}", result),
    };
    match scan.absorb_at(&third, false, 3) {
        AggregationStep::Done(result) => {
            assert_eq!(result, Ok(Total { total_steps: 355, computed_at_ms: 3 }))
        }
        AggregationStep::NextPage(_) => panic!("asked for a page after the last"),
    }
}

#[test]
fn single_empty_page_totals_zero() {
    match Aggregation::begin().absorb(&Vec::new(), false) {
        AggregationStep::Done(Ok(total)) => assert_eq!(total.total_steps, 0),
        _ => panic!("expected a total"),
    }
}

#[test]
fn malformed_item_on_a_later_page_ends_the_aggregation() {
    let scan = match Aggregation::begin().absorb_at(&vec![item("100")], true, 1) {
        AggregationStep::NextPage(scan) => scan,
        AggregationStep::Done(result) => panic!("ended early with {:?}", result),
    };
    let bad = RawItem { user_id: number("5"), ..item("1") };
    match scan.absorb_at(&vec![item("3"), bad], true, 2) {
        AggregationStep::Done(result) => assert_eq!(result, Err(ServiceError::AggregationParseError)),
        AggregationStep::NextPage(_) => panic!("went on after a malformed item"),
    }
}

#[test]
fn decode_reads_what_encode_wrote() {
    let written = Steps::new("us-east-1:alice".to_string(), u128::MAX - 5, u64::MAX, 0);
    assert_eq!(decode(&encode(&written)), Ok(written));
}

#[test]
fn failed_scan_ends_in_a_storage_error_without_a_total() {
    let scan = match Aggregation::begin().absorb_at(&vec![item("100")], true, 1) {
        AggregationStep::NextPage(scan) => scan,
        AggregationStep::Done(result) => panic!("ended early with {:?}", result),
    };
    match scan.scan_failed("throttled".to_string()) {
        AggregationStep::Done(result) => {
            assert_eq!(result, Err(ServiceError::StorageError { cause: "throttled".to_string() }))
        }
        AggregationStep::NextPage(_) => panic!("went on after a failed scan"),
    }
    match Aggregation::begin().scan_failed("no route".to_string()) {
        AggregationStep::Done(result) => {
            assert_eq!(result, Err(ServiceError::StorageError { cause: "no route".to_string() }))
        }
        AggregationStep::NextPage(_) => panic!("went on after a failed scan"),
    }
}

#[test]
fn total_stamped_now_carries_a_timestamp_in_range() {
    let total = aggregate(&MemoryStore::new());
    assert!(total.computed_at_ms <= daily_steps::clock::MAX_TIMESTAMP);
    match Aggregation::begin().absorb(&vec![item("7")], false) {
        AggregationStep::Done(Ok(total)) => {
            assert_eq!(total.total_steps, 7);
            assert!(total.computed_at_ms <= daily_steps::clock::MAX_TIMESTAMP);
        }
        _ => panic!("expected a total"),
    }
}
