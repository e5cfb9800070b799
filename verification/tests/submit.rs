use daily_steps::clock::{now_millis, start_of_day, MAX_TIMESTAMP, MILLIS_PER_DAY};
use daily_steps::error::ServiceError;
use daily_steps::record::Steps;
use daily_steps::store::MemoryStore;
use daily_steps::submit::{on_written, submit, submit_with, Submission, SubmitStep};

const DAY_3: u64 = 3 * MILLIS_PER_DAY;

fn is_version_4(id: u128) -> bool {
    (id >> 76) & 0xf == 4 && (id >> 62) & 0x3 == 2
}

#[test]
fn first_submission_of_the_day_is_accepted() {
    let mut store = MemoryStore::new();
    let now = DAY_3 + 1_234;
    let outcome = submit_with(&mut store, "alice".to_string(), Some(4_200), now, 11);
    let record = outcome.unwrap();
    assert_eq!(record, Steps { user_id: "alice".to_string(), step_id: 11, timestamp: now, steps: 4_200 });
    assert!(start_of_day(now) <= record.timestamp);
    assert!(record.timestamp < start_of_day(now) + MILLIS_PER_DAY);
    assert_eq!(store.len(), 1);
    assert_eq!(store.scan_all(), vec![record]);
}

#[test]
fn second_submission_of_the_day_is_rejected() {
    let mut store = MemoryStore::new();
    submit_with(&mut store, "alice".to_string(), Some(4_200), DAY_3 + 1, 11).unwrap();
    let before = store.scan_all();
    let outcome = submit_with(&mut store, "alice".to_string(), Some(7), DAY_3 + 2, 12);
    assert_eq!(outcome, Err(ServiceError::AlreadySubmittedToday));
    assert_eq!(store.len(), 1);
    assert_eq!(store.scan_all(), before);
    let last = submit_with(&mut store, "alice".to_string(), Some(7), DAY_3 + MILLIS_PER_DAY - 1, 13);
    assert_eq!(last, Err(ServiceError::AlreadySubmittedToday));
    assert_eq!(store.len(), 1);
}

#[test]
fn another_user_is_not_blocked() {
    let mut store = MemoryStore::new();
    submit_with(&mut store, "alice".to_string(), Some(4_200), DAY_3 + 1, 11).unwrap();
    let outcome = submit_with(&mut store, "bob".to_string(), Some(900), DAY_3 + 2, 12);
    assert_eq!(outcome.unwrap().user_id, "bob");
    assert_eq!(store.len(), 2);
}

#[test]
fn the_next_day_is_open_again() {
    let mut store = MemoryStore::new();
    submit_with(&mut store, "alice".to_string(), Some(1), DAY_3 + MILLIS_PER_DAY - 1, 11).unwrap();
    let outcome = submit_with(&mut store, "alice".to_string(), Some(2), DAY_3 + MILLIS_PER_DAY, 12);
    assert_eq!(outcome.unwrap().steps, 2);
    assert_eq!(store.len(), 2);
}

#[test]
fn record_written_at_midnight_does_not_block() {
    let mut store = MemoryStore::new();
    store.put(Steps::new("alice".to_string(), 11, DAY_3, 500));
    let outcome = submit_with(&mut store, "alice".to_string(), Some(600), DAY_3 + 10, 12);
    assert_eq!(outcome.unwrap().timestamp, DAY_3 + 10);
    assert_eq!(store.len(), 2);
}

#[test]
fn record_written_one_millisecond_after_midnight_blocks() {
    let mut store = MemoryStore::new();
    store.put(Steps::new("alice".to_string(), 11, DAY_3 + 1, 500));
    let outcome = submit_with(&mut store, "alice".to_string(), Some(600), DAY_3 + 10, 12);
    assert_eq!(outcome, Err(ServiceError::AlreadySubmittedToday));
    assert_eq!(store.len(), 1);
}

#[test]
fn submission_at_midnight_blocks_only_later_ones() {
    let mut store = MemoryStore::new();
    submit_with(&mut store, "alice".to_string(), Some(1), DAY_3, 11).unwrap();
    let second = submit_with(&mut store, "alice".to_string(), Some(2), DAY_3, 12);
    assert_eq!(second.unwrap().steps, 2);
    assert_eq!(store.len(), 2);
}

#[test]
fn missing_step_count_is_invalid_input() {
    let mut store = MemoryStore::new();
    let outcome = submit_with(&mut store, "alice".to_string(), None, DAY_3, 11);
    assert_eq!(outcome, Err(ServiceError::InvalidInput));
    assert_eq!(store.len(), 0);
    assert_eq!(submit(&mut store, "alice".to_string(), None), Err(ServiceError::InvalidInput));
    assert_eq!(Submission::begin("alice".to_string(), None), Err(ServiceError::InvalidInput));
    assert_eq!(Submission::begin_at("alice".to_string(), None, 5), Err(ServiceError::InvalidInput));
}

#[test]
fn invalid_input_comes_before_the_daily_check() {
    let mut store = MemoryStore::new();
    submit_with(&mut store, "alice".to_string(), Some(1), DAY_3 + 1, 11).unwrap();
    let outcome = submit_with(&mut store, "alice".to_string(), None, DAY_3 + 2, 12);
    assert_eq!(outcome, Err(ServiceError::InvalidInput));
}

#[test]
fn accepted_record_is_found_by_a_query_for_its_user() {
    let mut store = MemoryStore::new();
    store.put(Steps::new("bob".to_string(), 5, DAY_3 + 1, 30));
    let now = DAY_3 + 77;
    let record = submit_with(&mut store, "alice".to_string(), Some(10_000), now, 11).unwrap();
    assert_eq!(store.query_by_user_since("alice", 0), vec![record.clone()]);
    assert_eq!(store.query_by_user_since("alice", now - 1), vec![record.clone()]);
    assert_eq!(store.query_by_user_since("alice", now), Vec::<Steps>::new());
    assert_eq!(store.query_by_user_since("carol", 0), Vec::<Steps>::new());
}

#[test]
fn query_is_strict_in_the_timestamp() {
    let mut store = MemoryStore::new();
    store.put(Steps::new("alice".to_string(), 1, 100, 1));
    store.put(Steps::new("alice".to_string(), 2, 101, 2));
    store.put(Steps::new("alice".to_string(), 3, 102, 3));
    let mut found: Vec<u128> =
        store.query_by_user_since("alice", 100).iter().map(|record| record.step_id).collect();
    found.sort();
    assert_eq!(found, vec![2, 3]);
}

#[test]
fn put_overwrites_the_item_with_the_same_key() {
    let mut store = MemoryStore::new();
    store.put(Steps::new("alice".to_string(), 1, 100, 1));
    store.put(Steps::new("alice".to_string(), 1, 200, 9));
    assert_eq!(store.len(), 1);
    assert_eq!(store.scan_all(), vec![Steps::new("alice".to_string(), 1, 200, 9)]);
    store.put(Steps::new("bob".to_string(), 1, 100, 1));
    store.put(Steps::new("alice".to_string(), 2, 100, 1));
    assert_eq!(store.len(), 3);
}

#[test]
fn new_store_is_empty() {
    let store = MemoryStore::new();
    assert_eq!(store.len(), 0);
    assert_eq!(store.scan_all(), Vec::<Steps>::new());
    assert_eq!(store.query_by_user_since("alice", 0), Vec::<Steps>::new());
}

#[test]
fn submission_asks_for_records_since_midnight() {
    let submission = Submission::begin_at("alice".to_string(), Some(5), DAY_3 + 999).unwrap();
    assert_eq!(submission.user_id, "alice");
    assert_eq!(submission.steps, 5);
    assert_eq!(submission.now_ms, DAY_3 + 999);
    assert_eq!(submission.since(), DAY_3);
}

#[test]
fn page_with_a_record_rejects() {
    let submission = Submission::begin_at("alice".to_string(), Some(5), DAY_3).unwrap();
    let step = submission.on_page_with(1, false, 9);
    assert_eq!(step, SubmitStep::Rejected(ServiceError::AlreadySubmittedToday));
    let submission = Submission::begin_at("alice".to_string(), Some(5), DAY_3).unwrap();
    let step = submission.on_page_with(3, true, 9);
    assert_eq!(step, SubmitStep::Rejected(ServiceError::AlreadySubmittedToday));
    let submission = Submission::begin_at("alice".to_string(), Some(5), DAY_3).unwrap();
    assert_eq!(submission.on_page(2, true), SubmitStep::Rejected(ServiceError::AlreadySubmittedToday));
}

#[test]
fn empty_page_with_more_to_come_asks_again() {
    let submission = Submission::begin_at("alice".to_string(), Some(5), DAY_3).unwrap();
    let again = Submission::begin_at("alice".to_string(), Some(5), DAY_3).unwrap();
    assert_eq!(submission.on_page_with(0, true, 9), SubmitStep::QueryAgain(again));
    let submission = Submission::begin_at("alice".to_string(), Some(5), DAY_3).unwrap();
    let again = Submission::begin_at("alice".to_string(), Some(5), DAY_3).unwrap();
    assert_eq!(submission.on_page(0, true), SubmitStep::QueryAgain(again));
}

#[test]
fn last_empty_page_admits_the_record() {
    let submission = Submission::begin_at("alice".to_string(), Some(5), DAY_3 + 4).unwrap();
    let step = submission.on_page_with(0, false, 9);
    assert_eq!(step, SubmitStep::Put(Steps::new("alice".to_string(), 9, DAY_3 + 4, 5)));
}

#[test]
fn admitted_record_gets_a_version_4_uuid() {
    let submission = Submission::begin_at("alice".to_string(), Some(5), DAY_3 + 4).unwrap();
    match submission.on_page(0, false) {
        SubmitStep::Put(record) => {
            assert!(is_version_4(record.step_id));
            assert_eq!(record.user_id, "alice");
            assert_eq!(record.timestamp, DAY_3 + 4);
            assert_eq!(record.steps, 5);
        }
        other => panic!("expected a record to write, got {:?}", other),
    }
}

#[test]
fn written_record_is_the_result() {
    let record = Steps::new("alice".to_string(), 9, DAY_3, 5);
    assert_eq!(on_written(record.clone(), Ok(())), Ok(record));
}

#[test]
fn failed_write_is_a_storage_error_with_its_cause() {
    let record = Steps::new("alice".to_string(), 9, DAY_3, 5);
    let outcome = on_written(record, Err("throughput exceeded".to_string()));
    assert_eq!(outcome, Err(ServiceError::StorageError { cause: "throughput exceeded".to_string() }));
}

#[test]
fn submit_stamps_the_record_with_the_current_time_and_a_fresh_uuid() {
    let mut store = MemoryStore::new();
    let before = now_millis();
    let first = submit(&mut store, "alice".to_string(), Some(8_000)).unwrap();
    let second = submit(&mut store, "bob".to_string(), Some(9_000)).unwrap();
    let after = now_millis();
    assert!(before <= first.timestamp && first.timestamp <= second.timestamp);
    assert!(second.timestamp <= after);
    assert!(is_version_4(first.step_id));
    assert!(is_version_4(second.step_id));
    assert_ne!(first.step_id, second.step_id);
    assert_eq!(first.user_id, "alice");
    assert_eq!(first.steps, 8_000);
    assert_eq!(store.len(), 2);
    assert_eq!(submit(&mut store, "alice".to_string(), Some(1)), Err(ServiceError::AlreadySubmittedToday));
    assert_eq!(store.len(), 2);
}

#[test]
fn two_submissions_checked_before_either_is_written_both_succeed() {
    let mut store = MemoryStore::new();
    let first = Submission::begin_at("alice".to_string(), Some(100), DAY_3 + 1).unwrap();
    let second = Submission::begin_at("alice".to_string(), Some(200), DAY_3 + 2).unwrap();
    let first_found = store.query_by_user_since(&first.user_id, first.since()).len();
    let second_found = store.query_by_user_since(&second.user_id, second.since()).len();
    let first_record = match first.on_page_with(first_found, false, 21) {
        SubmitStep::Put(record) => record,
        other => panic!("expected a record to write, got {:?}", other),
    };
    let second_record = match second.on_page_with(second_found, false, 22) {
        SubmitStep::Put(record) => record,
        other => panic!("expected a record to write, got {:?}", other),
    };
    store.put(first_record.clone());
    store.put(second_record.clone());
    assert_eq!(on_written(first_record.clone(), Ok(())), Ok(first_record));
    assert_eq!(on_written(second_record.clone(), Ok(())), Ok(second_record));
    assert_eq!(store.query_by_user_since("alice", DAY_3).len(), 2);
}

#[test]
fn verdict_admits_only_when_nothing_was_found() {
    let submission = Submission::begin_at("alice".to_string(), Some(5), DAY_3 + 4).unwrap();
    assert_eq!(submission.admit_with(0, 9), Ok(Steps::new("alice".to_string(), 9, DAY_3 + 4, 5)));
    let submission = Submission::begin_at("alice".to_string(), Some(5), DAY_3 + 4).unwrap();
    assert_eq!(submission.admit_with(1, 9), Err(ServiceError::AlreadySubmittedToday));
    let submission = Submission::begin_at("alice".to_string(), Some(5), DAY_3 + 4).unwrap();
    assert_eq!(submission.admit_with(usize::MAX, 9), Err(ServiceError::AlreadySubmittedToday));
}

#[test]
fn record_from_a_later_day_blocks_too() {
    let mut store = MemoryStore::new();
    store.put(Steps::new("alice".to_string(), 11, DAY_3 + 2 * MILLIS_PER_DAY, 500));
    let outcome = submit_with(&mut store, "alice".to_string(), Some(600), DAY_3 + 10, 12);
    assert_eq!(outcome, Err(ServiceError::AlreadySubmittedToday));
}

#[test]
fn record_from_the_day_before_does_not_block() {
    let mut store = MemoryStore::new();
    store.put(Steps::new("alice".to_string(), 11, DAY_3 - 1, 500));
    let outcome = submit_with(&mut store, "alice".to_string(), Some(600), DAY_3, 12);
    assert_eq!(outcome.unwrap().steps, 600);
    assert_eq!(store.len(), 2);
}

#[test]
fn accepted_submission_under_a_held_key_overwrites() {
    let mut store = MemoryStore::new();
    store.put(Steps::new("alice".to_string(), 11, DAY_3 - 5, 500));
    let outcome = submit_with(&mut store, "alice".to_string(), Some(600), DAY_3 + 1, 11);
    assert_eq!(outcome.unwrap().steps, 600);
    assert_eq!(store.len(), 1);
    assert_eq!(store.scan_all(), vec![Steps::new("alice".to_string(), 11, DAY_3 + 1, 600)]);
}

#[test]
fn failed_query_ends_in_a_storage_error_with_its_cause() {
    let submission = Submission::begin_at("alice".to_string(), Some(5), DAY_3 + 4).unwrap();
    let step = submission.query_failed("request timed out".to_string());
    let cause = "request timed out".to_string();
    assert_eq!(step, SubmitStep::Rejected(ServiceError::StorageError { cause }));
}

#[test]
fn submission_opened_now_carries_a_timestamp_in_range() {
    let before = now_millis();
    let submission = Submission::begin("alice".to_string(), Some(5)).unwrap();
    let after = now_millis();
    assert!(before <= submission.now_ms && submission.now_ms <= after);
    assert!(submission.now_ms <= MAX_TIMESTAMP);
    assert_eq!(submission.user_id, "alice");
    assert_eq!(submission.steps, 5);
}
