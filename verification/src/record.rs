//! The entry record: one accepted step submission.

use vstd::prelude::*;

verus! {

/// One step submission as it is stored.
///
/// `user_id` is the partition key and `step_id` the sort key: together they
/// address the record. `step_id` holds the 128 bits of the record's UUID.
#[derive(Debug, PartialEq, Eq)]
pub struct Steps {
    pub user_id: String,
    pub step_id: u128,
    pub timestamp: u64,
    pub steps: u64,
}

/// The mathematical value of a [`Steps`] record.
pub struct StepsView {
    pub user_id: Seq<char>,
    pub step_id: u128,
    pub timestamp: u64,
    pub steps: u64,
}

/// The composite key under which a record is stored.
pub type RecordKey = (Seq<char>, u128);

impl StepsView {
    /// The key `(user_id, step_id)` of the record.
    pub open spec fn key(self) -> RecordKey {
        (self.user_id, self.step_id)
    }
}

impl View for Steps {
    type V = StepsView;

    open spec fn view(&self) -> StepsView {
        StepsView {
            user_id: self.user_id@,
            step_id: self.step_id,
            timestamp: self.timestamp,
            steps: self.steps,
        }
    }
}

impl Clone for Steps {
    fn clone(&self) -> (copy: Self)
        ensures
            copy == *self,
    {
        Steps {
            user_id: self.user_id.clone(),
            step_id: self.step_id,
            timestamp: self.timestamp,
            steps: self.steps,
        }
    }
}

impl Default for Steps {
    fn default() -> (record: Self)
        ensures
            record@ == (StepsView { user_id: Seq::empty(), step_id: 0, timestamp: 0, steps: 0 }),
    {
        Steps { user_id: String::new(), step_id: 0, timestamp: 0, steps: 0 }
    }
}

impl Steps {
    /// Assembles a record from its four fields.
    pub fn new(user_id: String, step_id: u128, timestamp: u64, steps: u64) -> (record: Self)
        ensures
            record@ == (StepsView { user_id: user_id@, step_id, timestamp, steps }),
    {
        Steps { user_id, step_id, timestamp, steps }
    }

    /// Whether two records hold the same four values.
    pub fn same_as(&self, other: &Steps) -> (same: bool)
        ensures
            same == (self@ == other@),
    {
        self.user_id == other.user_id && self.step_id == other.step_id
            && self.timestamp == other.timestamp && self.steps == other.steps
    }

    /// Whether the record is stored under the key `(user_id, step_id)`.
    pub fn has_key(&self, user_id: &String, step_id: u128) -> (hit: bool)
        ensures
            hit == (self@.key() == (user_id@, step_id)),
    {
        self.step_id == step_id && self.user_id == *user_id
    }
}

} // verus!
