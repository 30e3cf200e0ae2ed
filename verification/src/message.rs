use vstd::prelude::*;
use crate::model::{JobModel, MessageModel, ReceivedModel};

verus! {

/// A stored message row. All timestamps are milliseconds since the epoch.
pub struct MessageRecord {
    pub id: u128,
    pub queue_id: u128,
    pub args: String,
    pub attempts: i64,
    pub inserted_at: u64,
    pub updated_at: u64,
    pub locked_at: Option<u64>,
    pub completed_at: Option<u64>,
    pub failed_at: Option<u64>,
}

impl View for MessageRecord {
    type V = MessageModel;

    open spec fn view(&self) -> MessageModel {
        MessageModel {
            id: self.id,
            queue_id: self.queue_id,
            args: self.args@,
            attempts: self.attempts,
            inserted_at: self.inserted_at,
            updated_at: self.updated_at,
            locked_at: self.locked_at,
            completed_at: self.completed_at,
            failed_at: self.failed_at,
        }
    }
}

/// A delivered message, as returned by `receive_message`.
pub struct Message {
    pub id: u128,
    pub args: String,
    pub queue: String,
    pub attempts: i64,
}

impl View for Message {
    type V = ReceivedModel;

    open spec fn view(&self) -> ReceivedModel {
        ReceivedModel { id: self.id, args: self.args@, queue: self.queue@, attempts: self.attempts }
    }
}

/// The model of an optional delivery.
pub open spec fn opt_received(r: Option<Message>) -> Option<ReceivedModel> {
    match r {
        Some(m) => Some(m@),
        None => None,
    }
}

/// A dashboard row: a message joined with its queue's name.
pub struct Job {
    pub id: u128,
    pub args: String,
    pub queue_name: String,
    pub attempts: i64,
    pub inserted_at: u64,
    pub updated_at: u64,
    pub locked_at: Option<u64>,
    pub completed_at: Option<u64>,
    pub failed_at: Option<u64>,
}

impl View for Job {
    type V = JobModel;

    open spec fn view(&self) -> JobModel {
        JobModel {
            id: self.id,
            args: self.args@,
            queue_name: self.queue_name@,
            attempts: self.attempts,
            inserted_at: self.inserted_at,
            updated_at: self.updated_at,
            locked_at: self.locked_at,
            completed_at: self.completed_at,
            failed_at: self.failed_at,
        }
    }
}

} // verus!
