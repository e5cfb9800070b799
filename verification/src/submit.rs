//! Submission: at most one accepted record per user and UTC day.
//!
//! A submission is checked against the store and then written. The check and
//! the write are two store operations: nothing holds the store between them,
//! so two submissions of one user that are checked before either is written
//! are both accepted.

use crate::clock::{day_start, now_millis, same_day, start_of_day, MAX_TIMESTAMP};
use crate::error::{ErrorView, ServiceError};
use crate::record::{RecordKey, Steps, StepsView};
use crate::store::{
    lists, matching, record_views, well_keyed, written_since, MemoryStore, StoreView,
};
use crate::total::{lemma_total_after_write, store_total};
use uuid::Uuid;
use vstd::prelude::*;

verus! {

/// Whether `id` has the version and variant bits of a random (version 4)
/// UUID.
pub open spec fn is_random_uuid(id: u128) -> bool {
    &&& (id / 0x1000_0000_0000_0000_0000) % 16 == 4
    &&& (id / 0x4000_0000_0000_0000) % 4 == 2
}

/// `uuid::Uuid::new_v4`, handed on as its 128 bits (`Uuid::as_u128`): a UUID
/// drawn from the operating system's random source, with the version and
/// variant bits set as for every version 4 UUID. It panics where that source
/// fails.
#[verifier::external_body]
fn fresh_step_id() -> (id: u128)
    ensures
        is_random_uuid(id),
{
    Uuid::new_v4().as_u128()
}

/// Whether `store` holds a record of `user_id` written strictly after `since`.
pub open spec fn submitted_since(store: StoreView, user_id: Seq<char>, since: u64) -> bool {
    exists|key: RecordKey|
        store.dom().contains(key) && written_since(#[trigger] store[key], user_id, since)
}

/// The outcome of a submission, as a value.
pub open spec fn outcome_view(outcome: Result<Steps, ServiceError>) -> Result<StepsView, ErrorView> {
    match outcome {
        Ok(record) => Ok(record@),
        Err(error) => Err(error@),
    }
}

/// What a submission does to a store and what it returns.
///
/// Without a step count the input is invalid. With a record of the user from
/// the current day in the store the submission is rejected. Otherwise the
/// record `(user_id, step_id, now_ms, steps)` is written and returned. The
/// store changes in that last case only.
pub open spec fn submitted(
    store: StoreView,
    user_id: Seq<char>,
    payload: Option<u64>,
    now_ms: u64,
    step_id: u128,
) -> (StoreView, Result<StepsView, ErrorView>) {
    match payload {
        None => (store, Err(ErrorView::InvalidInput)),
        Some(steps) => if submitted_since(store, user_id, day_start(now_ms)) {
            (store, Err(ErrorView::AlreadySubmittedToday))
        } else {
            let record = StepsView { user_id, step_id, timestamp: now_ms, steps };
            (store.insert(record.key(), record), Ok(record))
        },
    }
}

/// A request that carries a step count, on its way through the check.
#[derive(Debug, PartialEq, Eq)]
pub struct Submission {
    pub user_id: String,
    pub steps: u64,
    pub now_ms: u64,
}

/// The mathematical value of a [`Submission`].
pub struct SubmissionView {
    pub user_id: Seq<char>,
    pub steps: u64,
    pub now_ms: u64,
}

impl View for Submission {
    type V = SubmissionView;

    open spec fn view(&self) -> SubmissionView {
        SubmissionView { user_id: self.user_id@, steps: self.steps, now_ms: self.now_ms }
    }
}

/// What follows one page of the query for the user's records of the day.
#[derive(Debug, PartialEq, Eq)]
pub enum SubmitStep {
    /// The page held no record, and the store has more pages: ask again.
    QueryAgain(Submission),
    /// No record of the day was found: this record is to be written.
    Put(Steps),
    /// The submission ends in this error: a record of the day was found, or
    /// the store failed to answer.
    Rejected(ServiceError),
}

/// The mathematical value of a [`SubmitStep`].
pub enum SubmitStepView {
    QueryAgain(SubmissionView),
    Put(StepsView),
    Rejected(ErrorView),
}

impl View for SubmitStep {
    type V = SubmitStepView;

    open spec fn view(&self) -> SubmitStepView {
        match self {
            SubmitStep::QueryAgain(submission) => SubmitStepView::QueryAgain(submission@),
            SubmitStep::Put(record) => SubmitStepView::Put(record@),
            SubmitStep::Rejected(error) => SubmitStepView::Rejected(error@),
        }
    }
}

impl SubmissionView {
    /// The record that the submission is written as under `step_id`.
    pub open spec fn record(self, step_id: u128) -> StepsView {
        StepsView { user_id: self.user_id, step_id, timestamp: self.now_ms, steps: self.steps }
    }

    /// The verdict on a submission for which the store holds `found` records
    /// of the day: with none the record is admitted under `step_id`, else the
    /// submission is rejected.
    pub open spec fn admitted(self, found: nat, step_id: u128) -> Result<StepsView, ErrorView> {
        if found > 0 {
            Err(ErrorView::AlreadySubmittedToday)
        } else {
            Ok(self.record(step_id))
        }
    }

    /// What follows a page of `found` records of the day, `more` telling
    /// whether further pages remain: an empty page that is not the last
    /// decides nothing, any other gives the verdict.
    pub open spec fn after_page(self, found: nat, more: bool, step_id: u128) -> SubmitStepView {
        if found == 0 && more {
            SubmitStepView::QueryAgain(self)
        } else {
            match self.admitted(found, step_id) {
                Ok(record) => SubmitStepView::Put(record),
                Err(error) => SubmitStepView::Rejected(error),
            }
        }
    }
}

impl Submission {
    /// Opens a submission at the instant `now_ms`. `payload` is the step
    /// count that the request body holds, if it holds one.
    pub fn begin_at(user_id: String, payload: Option<u64>, now_ms: u64) -> (opened: Result<
        Submission,
        ServiceError,
    >)
        ensures
            match payload {
                Some(steps) => opened matches Ok(submission) && submission@ == (SubmissionView {
                    user_id: user_id@,
                    steps,
                    now_ms,
                }),
                None => opened == Err::<Submission, ServiceError>(ServiceError::InvalidInput),
            },
    {
        match payload {
            Some(steps) => Ok(Submission { user_id, steps, now_ms }),
            None => Err(ServiceError::InvalidInput),
        }
    }

    /// Opens a submission at the current instant, which is a timestamp of at
    /// most [`MAX_TIMESTAMP`].
    pub fn begin(user_id: String, payload: Option<u64>) -> (opened: Result<Submission, ServiceError>)
        ensures
            match payload {
                Some(steps) => opened matches Ok(submission) && submission.user_id@ == user_id@
                    && submission.steps == steps && submission.now_ms <= MAX_TIMESTAMP,
                None => opened == Err::<Submission, ServiceError>(ServiceError::InvalidInput),
            },
    {
        Submission::begin_at(user_id, payload, now_millis())
    }

    /// The instant after which a record of the user blocks this submission:
    /// the start of the current UTC day.
    pub fn since(&self) -> (midnight: u64)
        ensures
            midnight == day_start(self.now_ms),
    {
        start_of_day(self.now_ms)
    }

    /// Gives the verdict on the submission, `found` being the number of
    /// records of the user written after [`Submission::since`]. An admitted
    /// submission becomes the record to write, with `step_id` as its key.
    pub fn admit_with(self, found: usize, step_id: u128) -> (verdict: Result<Steps, ServiceError>)
        ensures
            outcome_view(verdict) == self@.admitted(found as nat, step_id),
    {
        if found > 0 {
            Err(ServiceError::AlreadySubmittedToday)
        } else {
            Ok(
                Steps {
                    user_id: self.user_id,
                    step_id,
                    timestamp: self.now_ms,
                    steps: self.steps,
                },
            )
        }
    }

    /// Decides on one page of the query for records of the user written
    /// after [`Submission::since`]; `step_id` becomes the key of the record
    /// if the submission is admitted.
    pub fn on_page_with(self, found: usize, more: bool, step_id: u128) -> (step: SubmitStep)
        ensures
            step@ == self@.after_page(found as nat, more, step_id),
    {
        if found == 0 && more {
            SubmitStep::QueryAgain(self)
        } else {
            match self.admit_with(found, step_id) {
                Ok(record) => SubmitStep::Put(record),
                Err(error) => SubmitStep::Rejected(error),
            }
        }
    }

    /// Ends the submission because the store failed to answer the query:
    /// the error is a `StorageError` with the cause that the store gave.
    pub fn query_failed(self, cause: String) -> (step: SubmitStep)
        ensures
            step == SubmitStep::Rejected(ServiceError::StorageError { cause }),
    {
        SubmitStep::Rejected(ServiceError::StorageError { cause })
    }

    /// Decides on a page of the query as [`Submission::on_page_with`] does,
    /// with a freshly drawn UUID as the key of an admitted record.
    pub fn on_page(self, found: usize, more: bool) -> (step: SubmitStep)
        ensures
            exists|step_id: u128| step@ == #[trigger] self@.after_page(found as nat, more, step_id),
            step matches SubmitStep::Put(record) ==> is_random_uuid(record.step_id),
    {
        let step_id = fresh_step_id();
        self.on_page_with(found, more, step_id)
    }
}

/// The result of a submission whose record was handed to the store:
/// the record if the store wrote it, else a `StorageError` with the cause
/// that the store gave.
pub fn on_written(record: Steps, written: Result<(), String>) -> (outcome: Result<
    Steps,
    ServiceError,
>)
    ensures
        match written {
            Ok(_) => outcome == Ok::<Steps, ServiceError>(record),
            Err(cause) => outcome == Err::<Steps, ServiceError>(
                ServiceError::StorageError { cause },
            ),
        },
{
    match written {
        Ok(_) => Ok(record),
        Err(cause) => Err(ServiceError::StorageError { cause }),
    }
}

/// A query result is empty exactly if the store holds no record of the user
/// written after `since`.
pub proof fn lemma_found_none(
    found: Seq<StepsView>,
    store: StoreView,
    user_id: Seq<char>,
    since: u64,
)
    requires
        lists(found, matching(store, user_id, since)),
    ensures
        found.len() > 0 <==> submitted_since(store, user_id, since),
{
    let hits = matching(store, user_id, since);
    if found.len() > 0 {
        assert(hits.dom().contains(found[0].key()));
        assert(written_since(store[found[0].key()], user_id, since));
    }
    if submitted_since(store, user_id, since) {
        let key = choose|key: RecordKey|
            store.dom().contains(key) && written_since(#[trigger] store[key], user_id, since);
        assert(hits.dom().contains(key));
    }
}

/// Submits `payload` for `user_id` to `store` at the instant `now_ms`, with
/// `step_id` as the key of the record if it is accepted.
pub fn submit_with(
    store: &mut MemoryStore,
    user_id: String,
    payload: Option<u64>,
    now_ms: u64,
    step_id: u128,
) -> (outcome: Result<Steps, ServiceError>)
    ensures
        (final(store)@, outcome_view(outcome)) == submitted(
            old(store)@,
            user_id@,
            payload,
            now_ms,
            step_id,
        ),
{
    let submission = match Submission::begin_at(user_id, payload, now_ms) {
        Ok(submission) => submission,
        Err(error) => {
            return Err(error);
        },
    };
    let found = store.query_by_user_since(submission.user_id.as_str(), submission.since());
    proof {
        lemma_found_none(
            record_views(found@),
            store@,
            submission.user_id@,
            day_start(submission.now_ms),
        );
    }
    match submission.admit_with(found.len(), step_id) {
        Ok(record) => {
            store.put(record.clone());
            on_written(record, Ok(()))
        },
        Err(error) => Err(error),
    }
}

/// Submits `payload` for `user_id` to `store` at the current instant, under
/// a freshly drawn UUID.
///
/// The outcome is that of [`submit_with`] at some instant of at most
/// [`MAX_TIMESTAMP`] and under some key; an accepted record tells both.
pub fn submit(store: &mut MemoryStore, user_id: String, payload: Option<u64>) -> (outcome: Result<
    Steps,
    ServiceError,
>)
    ensures
        exists|now_ms: u64, step_id: u128|
            now_ms <= MAX_TIMESTAMP && (final(store)@, outcome_view(outcome)) == #[trigger] submitted(
                old(store)@,
                user_id@,
                payload,
                now_ms,
                step_id,
            ),
        outcome matches Ok(record) ==> is_random_uuid(record.step_id) && record.timestamp
            <= MAX_TIMESTAMP,
{
    let now_ms = now_millis();
    let step_id = fresh_step_id();
    submit_with(store, user_id, payload, now_ms, step_id)
}

/// A first submission of the day is accepted: the record carries the user,
/// the step count and a timestamp within the current day, and it is the one
/// change to the store.
pub proof fn lemma_first_submission_accepted(
    store: StoreView,
    user_id: Seq<char>,
    steps: u64,
    now_ms: u64,
    step_id: u128,
)
    requires
        !submitted_since(store, user_id, day_start(now_ms)),
    ensures
        submitted(store, user_id, Some(steps), now_ms, step_id).1 matches Ok(record)
            && record.user_id == user_id && record.steps == steps && same_day(
            record.timestamp,
            now_ms,
        ) && submitted(store, user_id, Some(steps), now_ms, step_id).0 == store.insert(
            record.key(),
            record,
        ),
{
}

/// A user with a record written strictly after the day's midnight is
/// rejected, and the store stays as it is.
pub proof fn lemma_second_submission_rejected(
    store: StoreView,
    key: RecordKey,
    user_id: Seq<char>,
    steps: u64,
    now_ms: u64,
    step_id: u128,
)
    requires
        store.dom().contains(key),
        store[key].user_id == user_id,
        store[key].timestamp > day_start(now_ms),
    ensures
        submitted(store, user_id, Some(steps), now_ms, step_id) == (
            store,
            Err::<StepsView, ErrorView>(ErrorView::AlreadySubmittedToday),
        ),
{
    assert(written_since(store[key], user_id, day_start(now_ms)));
}

/// Records of the user from midnight itself or earlier do not block a
/// submission.
pub proof fn lemma_midnight_does_not_block(
    store: StoreView,
    user_id: Seq<char>,
    steps: u64,
    now_ms: u64,
    step_id: u128,
)
    requires
        forall|key: RecordKey|
            store.dom().contains(key) && (#[trigger] store[key]).user_id == user_id
                ==> store[key].timestamp <= day_start(now_ms),
    ensures
        submitted(store, user_id, Some(steps), now_ms, step_id).1 is Ok,
{
}

/// An accepted record is found again by every query for its user from an
/// earlier instant: the result holds it exactly once, equal in all four
/// fields to the record that was returned.
pub proof fn lemma_accepted_record_is_found(
    store: StoreView,
    user_id: Seq<char>,
    steps: u64,
    now_ms: u64,
    step_id: u128,
    since: u64,
    found: Seq<StepsView>,
)
    requires
        submitted(store, user_id, Some(steps), now_ms, step_id).1 is Ok,
        since < now_ms,
        lists(
            found,
            matching(submitted(store, user_id, Some(steps), now_ms, step_id).0, user_id, since),
        ),
    ensures
        submitted(store, user_id, Some(steps), now_ms, step_id).1 matches Ok(record)
            && found.contains(record),
        forall|i: int|
            0 <= i < found.len() && (#[trigger] found[i]).step_id == step_id ==> found[i] == (
            StepsView { user_id, step_id, timestamp: now_ms, steps }),
        forall|i: int, j: int|
            0 <= i < found.len() && 0 <= j < found.len() && (#[trigger] found[i]).step_id == step_id
                && (#[trigger] found[j]).step_id == step_id ==> i == j,
{
    let after = submitted(store, user_id, Some(steps), now_ms, step_id).0;
    let record = StepsView { user_id, step_id, timestamp: now_ms, steps };
    let hits = matching(after, user_id, since);
    assert(after.dom().contains(record.key()));
    assert(hits.dom().contains(record.key()));
    let at = choose|i: int| 0 <= i < found.len() && (#[trigger] found[i]).key() == record.key();
    assert(found[at] == record);
    assert forall|i: int| 0 <= i < found.len() && (#[trigger] found[i]).step_id
        == step_id implies found[i].key() == record.key() && found[i] == record by {
        assert(hits.dom().contains(found[i].key()));
        assert(written_since(after[found[i].key()], user_id, since));
    }
    assert forall|i: int, j: int|
        0 <= i < found.len() && 0 <= j < found.len() && (#[trigger] found[i]).step_id == step_id
            && (#[trigger] found[j]).step_id == step_id implies i == j by {
        assert(found[i].key() == found[j].key());
        if i < j {
            assert(found[i].key() != found[j].key());
        }
        if j < i {
            assert(found[j].key() != found[i].key());
        }
    }
}

/// An accepted submission under a key that the store does not hold yet adds
/// exactly one item, the record, and leaves every item of the store as it
/// is; a submission that fails adds none.
pub proof fn lemma_one_record_per_acceptance(
    store: StoreView,
    user_id: Seq<char>,
    payload: Option<u64>,
    now_ms: u64,
    step_id: u128,
)
    requires
        store.dom().finite(),
        !store.dom().contains((user_id, step_id)),
    ensures
        submitted(store, user_id, payload, now_ms, step_id).0.dom().len() == store.dom().len() + (
        if submitted(store, user_id, payload, now_ms, step_id).1 is Ok {
            1nat
        } else {
            0nat
        }),
        forall|key: RecordKey|
            store.dom().contains(key) ==> submitted(
                store,
                user_id,
                payload,
                now_ms,
                step_id,
            ).0.dom().contains(key) && #[trigger] submitted(
                store,
                user_id,
                payload,
                now_ms,
                step_id,
            ).0[key] == store[key],
        submitted(store, user_id, payload, now_ms, step_id).1 matches Ok(record) ==> submitted(
            store,
            user_id,
            payload,
            now_ms,
            step_id,
        ).0 == store.insert((user_id, step_id), record),
{
}

/// Two submissions of one user for the same day that both read the store
/// before either writes are both admitted, where the store held no record of
/// the user from after that day's midnight. Written under two different keys
/// that the store does not hold yet, they leave it with two more items,
/// both of that user and day.
pub proof fn lemma_unsequenced_submissions_both_admitted(
    store: StoreView,
    first: SubmissionView,
    second: SubmissionView,
    first_found: Seq<StepsView>,
    second_found: Seq<StepsView>,
    first_id: u128,
    second_id: u128,
)
    requires
        first.user_id == second.user_id,
        day_start(first.now_ms) == day_start(second.now_ms),
        !submitted_since(store, first.user_id, day_start(first.now_ms)),
        lists(first_found, matching(store, first.user_id, day_start(first.now_ms))),
        lists(second_found, matching(store, second.user_id, day_start(second.now_ms))),
    ensures
        first.admitted(first_found.len(), first_id) == Ok::<StepsView, ErrorView>(
            first.record(first_id),
        ),
        second.admitted(second_found.len(), second_id) == Ok::<StepsView, ErrorView>(
            second.record(second_id),
        ),
        same_day(first.record(first_id).timestamp, second.record(second_id).timestamp),
        first_id != second_id && store.dom().finite() && !store.dom().contains(
            first.record(first_id).key(),
        ) && !store.dom().contains(second.record(second_id).key()) ==> {
            let after = store.insert(first.record(first_id).key(), first.record(first_id)).insert(
                second.record(second_id).key(),
                second.record(second_id),
            );
            &&& after.dom().len() == store.dom().len() + 2
            &&& after[first.record(first_id).key()] == first.record(first_id)
            &&& after[second.record(second_id).key()] == second.record(second_id)
        },
{
    lemma_found_none(first_found, store, first.user_id, day_start(first.now_ms));
    lemma_found_none(second_found, store, second.user_id, day_start(second.now_ms));
}

/// An accepted submission under a key that the store does not hold yet
/// raises the total of the store by the submitted step count; a submission
/// that fails leaves the total as it is.
pub proof fn lemma_total_after_submission(
    store: StoreView,
    user_id: Seq<char>,
    payload: Option<u64>,
    now_ms: u64,
    step_id: u128,
)
    requires
        well_keyed(store),
        !store.dom().contains((user_id, step_id)),
    ensures
        store_total(submitted(store, user_id, payload, now_ms, step_id).0) == store_total(store) + (
        match submitted(store, user_id, payload, now_ms, step_id).1 {
            Ok(record) => record.steps as nat,
            Err(_) => 0nat,
        }),
{
    if let Ok(record) = submitted(store, user_id, payload, now_ms, step_id).1 {
        lemma_total_after_write(store, record);
    }
}

/// Whether `record` was written after the first millisecond of its UTC day.
pub open spec fn written_after_midnight(record: StepsView) -> bool {
    record.timestamp > day_start(record.timestamp)
}

/// Whether no user has two records from the same UTC day that were both
/// written after that day's midnight.
///
/// Midnight itself is left out because the check is strict: a record written
/// in the first millisecond of a day does not block a later one of that day.
pub open spec fn daily_limit_holds(store: StoreView) -> bool {
    forall|first: RecordKey, second: RecordKey|
        #![trigger store[first], store[second]]
        store.dom().contains(first) && store.dom().contains(second) && first != second
            && store[first].user_id == store[second].user_id && written_after_midnight(store[first])
            && written_after_midnight(store[second]) ==> day_start(store[first].timestamp)
            != day_start(store[second].timestamp)
}

/// Submissions keep the daily limit: a store in which it holds still holds
/// it after any submission.
pub proof fn lemma_submission_keeps_daily_limit(
    store: StoreView,
    user_id: Seq<char>,
    payload: Option<u64>,
    now_ms: u64,
    step_id: u128,
)
    requires
        daily_limit_holds(store),
    ensures
        daily_limit_holds(submitted(store, user_id, payload, now_ms, step_id).0),
{
    let after = submitted(store, user_id, payload, now_ms, step_id).0;
    if let Ok(record) = submitted(store, user_id, payload, now_ms, step_id).1 {
        assert forall|first: RecordKey, second: RecordKey|
            after.dom().contains(first) && after.dom().contains(second) && first != second
                && after[first].user_id == after[second].user_id && written_after_midnight(
                after[first],
            ) && written_after_midnight(after[second]) implies day_start(
            (#[trigger] after[first]).timestamp,
        ) != day_start((#[trigger] after[second]).timestamp) by {
            if first == record.key() {
                lemma_blocked_by_same_day(store, second, record);
            } else if second == record.key() {
                lemma_blocked_by_same_day(store, first, record);
            } else {
                assert(after[first] == store[first] && after[second] == store[second]);
            }
        }
    }
}

/// A stored record of the user from the day of `record`, written after
/// midnight, would have blocked the submission of `record`.
proof fn lemma_blocked_by_same_day(store: StoreView, key: RecordKey, record: StepsView)
    requires
        !submitted_since(store, record.user_id, day_start(record.timestamp)),
        store.dom().contains(key),
        store[key].user_id == record.user_id,
        written_after_midnight(store[key]),
    ensures
        day_start(store[key].timestamp) != day_start(record.timestamp),
{
    if day_start(store[key].timestamp) == day_start(record.timestamp) {
        assert(written_since(store[key], record.user_id, day_start(record.timestamp)));
    }
}

} // verus!
