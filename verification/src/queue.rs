use vstd::prelude::*;
use crate::model::QueueModel;

verus! {

/// A stored queue row.
pub struct QueueRecord {
    pub id: u128,
    pub name: String,
    pub max_attempts: i64,
    pub visibility_timeout_seconds: i64,
    pub inserted_at: u64,
    pub updated_at: u64,
}

impl View for QueueRecord {
    type V = QueueModel;

    open spec fn view(&self) -> QueueModel {
        QueueModel {
            id: self.id,
            name: self.name@,
            max_attempts: self.max_attempts,
            visibility_timeout_seconds: self.visibility_timeout_seconds,
            inserted_at: self.inserted_at,
            updated_at: self.updated_at,
        }
    }
}

/// One row of the queue listing.
pub struct Queue {
    pub name: String,
    pub max_attempts: i64,
}

/// Parameters for creating a queue.
pub struct CreateQueueRequest {
    pub name: String,
    pub max_attempts: i64,
    pub visibility_timeout_seconds: i64,
}

/// The policy fields of a single queue.
pub struct ShowQueueResponse {
    pub name: String,
    pub max_attempts: i64,
    pub visibility_timeout_seconds: i64,
}

/// A partial queue update; absent fields are left as they are.
pub struct UpdateQueueRequest {
    pub max_attempts: Option<i64>,
    pub visibility_timeout_seconds: Option<i64>,
}

impl UpdateQueueRequest {
    /// Whether the update carries any field at all.
    pub fn is_some(&self) -> (r: bool)
        ensures
            r == (self.max_attempts is Some || self.visibility_timeout_seconds is Some),
    {
        self.max_attempts.is_some() || self.visibility_timeout_seconds.is_some()
    }
}

/// One row of the queue listing, as seen by a client.
pub struct ListQueuesResponse {
    pub name: String,
    pub max_attempts: i64,
}

} // verus!
