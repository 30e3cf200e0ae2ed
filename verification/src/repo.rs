use vstd::prelude::*;
use vstd::pervasive::unreached;
use crate::ident::random_id;
use crate::json::check_json;
use crate::lex::str_le;
use crate::message::{opt_received, Job, Message, MessageRecord};
use crate::model::{
    complete_post, completed_message, create_queue_post, delete_queue_post, eligible,
    enqueue_post, fail_post, failed_message, has_message_with_id, has_queue_named,
    has_queue_with_id, job_of, keeps_other_queues, lease_expired, leased_message,
    leased_with_id, lemma_queue_with_id_is, lemma_sample_ge_total, lemma_sample_ge_trans,
    lemma_wf_delete_queue, lemma_wf_insert_queue, lemma_wf_push_message, lemma_wf_sweep,
    lemma_wf_update_message, lemma_wf_update_queue, message_with_id, new_message, new_queue,
    opt_rank, patched_queue, queue_named, receive_picks, receive_post, receive_post_at,
    received_from, sample_ge, sample_post, sweep_one, sweep_post, update_queue_post, wf,
    JobModel, MessageModel, StoreModel,
};
use crate::queue::{Queue, QueueRecord, ShowQueueResponse, UpdateQueueRequest};
use crate::AppError;

verus! {

/// The message store: the durable state of the service, held as plain
/// tables. Every lifecycle transition is a method on this type, each
/// specified against the transition relations of `model`.
///
/// Wall-clock time enters only through the `now` parameters (milliseconds
/// since the epoch), and fresh identifiers through `random_id`, so each
/// method is a deterministic function of its arguments.
pub struct Repo {
    queues: Vec<QueueRecord>,
    messages: Vec<MessageRecord>,
}

impl View for Repo {
    type V = StoreModel;

    closed spec fn view(&self) -> StoreModel {
        StoreModel {
            queues: self.queues@.map_values(|q: QueueRecord| q@),
            messages: self.messages@.map_values(|m: MessageRecord| m@),
        }
    }
}

/// First message row holding `id`, if any.
fn find_message(messages: &Vec<MessageRecord>, id: u128) -> (r: Option<usize>)
    ensures
        match r {
            Some(mi) => {
                &&& (mi as int) < messages@.len()
                &&& messages@[mi as int].id == id
                &&& forall|j: int| 0 <= j < mi ==> (#[trigger] messages@[j]).id != id
            },
            None => forall|j: int| 0 <= j < messages@.len() ==> (#[trigger] messages@[j]).id != id,
        },
{
    let n = messages.len();
    let mut i: usize = 0;
    while i < n
        invariant
            n == messages@.len(),
            i <= n,
            forall|j: int| 0 <= j < i ==> (#[trigger] messages@[j]).id != id,
        decreases n - i,
    {
        if messages[i].id == id {
            return Some(i);
        }
        i = i + 1;
    }
    None
}

/// First queue row named `name`, if any.
fn find_queue(queues: &Vec<QueueRecord>, name: &String) -> (r: Option<usize>)
    ensures
        match r {
            Some(qi) => {
                &&& (qi as int) < queues@.len()
                &&& queues@[qi as int].name@ == name@
                &&& forall|j: int| 0 <= j < qi ==> (#[trigger] queues@[j]).name@ != name@
            },
            None => forall|j: int| 0 <= j < queues@.len() ==> (#[trigger] queues@[j]).name@ != name@,
        },
{
    let n = queues.len();
    let mut i: usize = 0;
    while i < n
        invariant
            n == queues@.len(),
            i <= n,
            forall|j: int| 0 <= j < i ==> (#[trigger] queues@[j]).name@ != name@,
        decreases n - i,
    {
        if queues[i].name == *name {
            return Some(i);
        }
        i = i + 1;
    }
    None
}

/// Whether any queue row already holds `id`.
fn queue_id_taken(queues: &Vec<QueueRecord>, id: u128) -> (r: bool)
    ensures
        r == exists|k: int| 0 <= k < queues@.len() && (#[trigger] queues@[k]).id == id,
{
    let n = queues.len();
    let mut i: usize = 0;
    while i < n
        invariant
            n == queues@.len(),
            i <= n,
            forall|j: int| 0 <= j < i ==> (#[trigger] queues@[j]).id != id,
        decreases n - i,
    {
        if queues[i].id == id {
            return true;
        }
        i = i + 1;
    }
    false
}

/// A field-by-field copy of a message row.
fn clone_message(m: &MessageRecord) -> (r: MessageRecord)
    ensures
        r@ == m@,
{
    MessageRecord {
        id: m.id,
        queue_id: m.queue_id,
        args: m.args.clone(),
        attempts: m.attempts,
        inserted_at: m.inserted_at,
        updated_at: m.updated_at,
        locked_at: m.locked_at,
        completed_at: m.completed_at,
        failed_at: m.failed_at,
    }
}

/// The row of the queue holding `qid`; the caller warrants there is one.
fn find_queue_index_by_id(queues: &Vec<QueueRecord>, qid: u128) -> (r: usize)
    requires
        exists|k: int| 0 <= k < queues@.len() && (#[trigger] queues@[k]).id == qid,
    ensures
        (r as int) < queues@.len(),
        queues@[r as int].id == qid,
{
    let n = queues.len();
    let mut i: usize = 0;
    while i < n
        invariant
            i <= n,
            n == queues@.len(),
            exists|k: int| i <= k < n && (#[trigger] queues@[k]).id == qid,
        decreases n - i,
    {
        if queues[i].id == qid {
            return i;
        }
        proof {
            let k = choose|k: int| i <= k < n && (#[trigger] queues@[k]).id == qid;
            assert(i + 1 <= k < n && queues@[k].id == qid);
        }
        i = i + 1;
    }
    proof {
        assert(false);
    }
    unreached()
}

/// Decides `opt_rank(a) > opt_rank(b)`.
fn rank_gt(a: Option<u64>, b: Option<u64>) -> (r: bool)
    ensures
        r == (opt_rank(a) > opt_rank(b)),
{
    match (a, b) {
        (Some(x), Some(y)) => x > y,
        (Some(_), None) => true,
        (None, _) => false,
    }
}

/// Decides `opt_rank(a) == opt_rank(b)`.
fn rank_eq(a: Option<u64>, b: Option<u64>) -> (r: bool)
    ensures
        r == (opt_rank(a) == opt_rank(b)),
{
    match (a, b) {
        (Some(x), Some(y)) => x == y,
        (None, None) => true,
        _ => false,
    }
}

/// Decides the dashboard order `sample_ge` on rows.
fn job_ge(a: &Job, b: &Job) -> (r: bool)
    ensures
        r == sample_ge(a@, b@),
{
    if a.updated_at != b.updated_at {
        a.updated_at > b.updated_at
    } else if a.inserted_at != b.inserted_at {
        a.inserted_at > b.inserted_at
    } else if !rank_eq(a.locked_at, b.locked_at) {
        rank_gt(a.locked_at, b.locked_at)
    } else if !rank_eq(a.completed_at, b.completed_at) {
        rank_gt(a.completed_at, b.completed_at)
    } else {
        rank_gt(a.failed_at, b.failed_at) || rank_eq(a.failed_at, b.failed_at)
    }
}

impl Repo {
    /// A fresh, empty store.
    pub fn new() -> (r: Repo)
        ensures
            wf(r@),
            r@.queues.len() == 0,
            r@.messages.len() == 0,
    {
        Repo { queues: Vec::new(), messages: Vec::new() }
    }

    /// Transitions a leased message to `completed`; anything else is left
    /// untouched, so repeating the call is harmless.
    pub fn complete_message(&mut self, message_id: u128, now: u64)
        requires
            wf(old(self)@),
        ensures
            wf(final(self)@),
            complete_post(old(self)@, final(self)@, message_id, now),
    {
        match find_message(&self.messages, message_id) {
            None => {
                assert(!has_message_with_id(self@, message_id));
            },
            Some(mi) => {
                let leased = self.messages[mi].locked_at.is_some()
                    && self.messages[mi].completed_at.is_none()
                    && self.messages[mi].failed_at.is_none();
                if leased {
                    let rec = MessageRecord {
                        id: self.messages[mi].id,
                        queue_id: self.messages[mi].queue_id,
                        args: self.messages[mi].args.clone(),
                        attempts: self.messages[mi].attempts,
                        inserted_at: self.messages[mi].inserted_at,
                        updated_at: now,
                        locked_at: None,
                        completed_at: Some(now),
                        failed_at: None,
                    };
                    proof {
                        assert(leased_with_id(self@, mi as int, message_id));
                    }
                    let ghost pre = self@;
                    self.messages[mi] = rec;
                    proof {
                        assert(self@.messages =~= pre.messages.update(
                            mi as int,
                            completed_message(pre.messages[mi as int], now),
                        ));
                        lemma_wf_update_message(
                            pre,
                            self@,
                            mi as int,
                            completed_message(pre.messages[mi as int], now),
                        );
                    }
                } else {
                    proof {
                        assert(forall|j: int|
                            leased_with_id(self@, j, message_id) ==> j == mi as int);
                        assert(!leased_with_id(self@, mi as int, message_id));
                    }
                }
            },
        }
    }

    /// Transitions a leased message to `failed`; symmetric to
    /// `complete_message`.
    pub fn fail_message(&mut self, message_id: u128, now: u64)
        requires
            wf(old(self)@),
        ensures
            wf(final(self)@),
            fail_post(old(self)@, final(self)@, message_id, now),
    {
        match find_message(&self.messages, message_id) {
            None => {
                assert(!has_message_with_id(self@, message_id));
            },
            Some(mi) => {
                let leased = self.messages[mi].locked_at.is_some()
                    && self.messages[mi].completed_at.is_none()
                    && self.messages[mi].failed_at.is_none();
                if leased {
                    let rec = MessageRecord {
                        id: self.messages[mi].id,
                        queue_id: self.messages[mi].queue_id,
                        args: self.messages[mi].args.clone(),
                        attempts: self.messages[mi].attempts,
                        inserted_at: self.messages[mi].inserted_at,
                        updated_at: now,
                        locked_at: None,
                        completed_at: None,
                        failed_at: Some(now),
                    };
                    proof {
                        assert(leased_with_id(self@, mi as int, message_id));
                    }
                    let ghost pre = self@;
                    self.messages[mi] = rec;
                    proof {
                        assert(self@.messages =~= pre.messages.update(
                            mi as int,
                            failed_message(pre.messages[mi as int], now),
                        ));
                        lemma_wf_update_message(
                            pre,
                            self@,
                            mi as int,
                            failed_message(pre.messages[mi as int], now),
                        );
                    }
                } else {
                    proof {
                        assert(forall|j: int|
                            leased_with_id(self@, j, message_id) ==> j == mi as int);
                        assert(!leased_with_id(self@, mi as int, message_id));
                    }
                }
            },
        }
    }

    /// Validates the payload, resolves the queue, and appends a fresh
    /// `ready` message carrying the given id.
    pub fn enqueue_message_with_id(&mut self, queue: &str, body: &str, id: u128, now: u64) -> (r:
        Result<u128, AppError>)
        requires
            wf(old(self)@),
        ensures
            wf(final(self)@),
            enqueue_post(old(self)@, final(self)@, queue@, body@, id, now, r),
    {
        if !check_json(body) {
            return Err(AppError::BadInput);
        }
        let name_owned: String = queue.to_owned();
        let qi = match find_queue(&self.queues, &name_owned) {
            None => {
                assert(!has_queue_named(self@, queue@));
                return Err(AppError::NotFound);
            },
            Some(qi) => qi,
        };
        assert(queue_named(self@, queue@, qi as int));
        match find_message(&self.messages, id) {
            Some(mi) => {
                assert(message_with_id(self@, mi as int, id));
                return Err(AppError::Conflict);
            },
            None => {
                assert(!has_message_with_id(self@, id));
            },
        }
        let rec = MessageRecord {
            id,
            queue_id: self.queues[qi].id,
            args: body.to_owned(),
            attempts: 0,
            inserted_at: now,
            updated_at: now,
            locked_at: None,
            completed_at: None,
            failed_at: None,
        };
        let ghost pre = self@;
        let ghost m = new_message(id, pre.queues[qi as int].id, body@, now);
        self.messages.push(rec);
        proof {
            assert(self@.messages =~= pre.messages.push(m));
            lemma_wf_push_message(pre, self@, m);
        }
        Ok(id)
    }

    /// Enqueue under a freshly drawn identifier. Whatever identifier comes
    /// back, the store moves by the enqueue transition for it.
    pub fn enqueue_message(&mut self, queue: &str, body: &str, now: u64) -> (r: Result<
        u128,
        AppError,
    >)
        requires
            wf(old(self)@),
        ensures
            wf(final(self)@),
            exists|id: u128|
                enqueue_post(old(self)@, final(self)@, queue@, body@, id, now, r),
    {
        let id = random_id();
        let r = self.enqueue_message_with_id(queue, body, id, now);
        r
    }

    /// The policy fields of the queue named `name`, if it exists.
    pub fn get_queue(&self, name: &str) -> (r: Option<ShowQueueResponse>)
        ensures
            match r {
                Some(resp) => {
                    &&& has_queue_named(self@, name@)
                    &&& exists|qi: int|
                        {
                            &&& #[trigger] queue_named(self@, name@, qi)
                            &&& resp.name@ == name@
                            &&& resp.max_attempts == self@.queues[qi].max_attempts
                            &&& resp.visibility_timeout_seconds
                                == self@.queues[qi].visibility_timeout_seconds
                        }
                },
                None => !has_queue_named(self@, name@),
            },
    {
        let name_owned: String = name.to_owned();
        match find_queue(&self.queues, &name_owned) {
            None => {
                assert(!has_queue_named(self@, name@));
                None
            },
            Some(qi) => {
                assert(queue_named(self@, name@, qi as int));
                Some(
                    ShowQueueResponse {
                        name: self.queues[qi].name.clone(),
                        max_attempts: self.queues[qi].max_attempts,
                        visibility_timeout_seconds: self.queues[qi].visibility_timeout_seconds,
                    },
                )
            },
        }
    }

    /// Every queue, in stored order: ascending by name.
    pub fn get_queues(&self) -> (r: Vec<Queue>)
        requires
            wf(self@),
        ensures
            r@.len() == self@.queues.len(),
            forall|i: int|
                0 <= i < r@.len() ==> (#[trigger] r@[i]).name@ == self@.queues[i].name
                    && r@[i].max_attempts == self@.queues[i].max_attempts,
            forall|i: int, j: int|
                0 <= i < j < r@.len() ==> crate::lex::name_le(
                    (#[trigger] r@[i]).name@,
                    (#[trigger] r@[j]).name@,
                ),
    {
        let n = self.queues.len();
        let mut out: Vec<Queue> = Vec::new();
        let mut i: usize = 0;
        while i < n
            invariant
                n == self@.queues.len(),
                i <= n,
                out@.len() == i,
                forall|k: int|
                    0 <= k < i ==> (#[trigger] out@[k]).name@ == self@.queues[k].name
                        && out@[k].max_attempts == self@.queues[k].max_attempts,
            decreases n - i,
        {
            let row = Queue {
                name: self.queues[i].name.clone(),
                max_attempts: self.queues[i].max_attempts,
            };
            out.push(row);
            i = i + 1;
        }
        out
    }

    /// Atomic selection-and-lock: delivers the oldest eligible message of
    /// the queue (by `updated_at`, earliest row first among ties), leasing
    /// it and counting the attempt; returns nothing when no message is
    /// eligible or the queue does not exist.
    pub fn receive_message(&mut self, queue: &str, now: u64) -> (r: Option<Message>)
        requires
            wf(old(self)@),
        ensures
            wf(final(self)@),
            receive_post(old(self)@, final(self)@, queue@, now, opt_received(r)),
    {
        let name_owned: String = queue.to_owned();
        let qi = match find_queue(&self.queues, &name_owned) {
            None => {
                assert(!has_queue_named(self@, queue@));
                return None;
            },
            Some(qi) => qi,
        };
        assert(queue_named(self@, queue@, qi as int));
        let q_id = self.queues[qi].id;
        let max_attempts = self.queues[qi].max_attempts;
        let n = self.messages.len();
        let mut best: Option<usize> = None;
        let mut i: usize = 0;
        while i < n
            invariant
                i <= n,
                n == self@.messages.len(),
                (qi as int) < self@.queues.len(),
                self@.queues[qi as int].id == q_id,
                self@.queues[qi as int].max_attempts == max_attempts,
                match best {
                    Some(b) => {
                        &&& (b as int) < i
                        &&& eligible(self@, qi as int, b as int)
                        &&& forall|mj: int|
                            #[trigger] eligible(self@, qi as int, mj) && mj < i
                                ==> self@.messages[b as int].updated_at
                                <= self@.messages[mj].updated_at
                        &&& forall|mj: int|
                            #[trigger] eligible(self@, qi as int, mj) && mj < b
                                ==> self@.messages[mj].updated_at
                                > self@.messages[b as int].updated_at
                    },
                    None => forall|mj: int| 0 <= mj < i ==> !eligible(self@, qi as int, mj),
                },
            decreases n - i,
        {
            let el = self.messages[i].queue_id == q_id && self.messages[i].locked_at.is_none()
                && self.messages[i].completed_at.is_none()
                && self.messages[i].failed_at.is_none()
                && self.messages[i].attempts < max_attempts;
            assert(el == eligible(self@, qi as int, i as int));
            let replace = match best {
                None => el,
                Some(b) => el && self.messages[i].updated_at < self.messages[b].updated_at,
            };
            if replace {
                best = Some(i);
            }
            i = i + 1;
        }
        match best {
            None => {
                proof {
                    assert(forall|mj: int|
                        0 <= mj < self@.messages.len() ==> !eligible(self@, qi as int, mj));
                    assert(!(exists|mi: int| eligible(self@, qi as int, mi)));
                    assert(receive_post_at(self@, self@, qi as int, queue@, now, opt_received(None)));
                }
                None
            },
            Some(b) => {
                proof {
                    assert(receive_picks(self@, qi as int, b as int));
                }
                let attempts = self.messages[b].attempts;
                let rec = MessageRecord {
                    id: self.messages[b].id,
                    queue_id: self.messages[b].queue_id,
                    args: self.messages[b].args.clone(),
                    attempts: attempts + 1,
                    inserted_at: self.messages[b].inserted_at,
                    updated_at: now,
                    locked_at: Some(now),
                    completed_at: self.messages[b].completed_at,
                    failed_at: self.messages[b].failed_at,
                };
                let out = Message {
                    id: self.messages[b].id,
                    args: self.messages[b].args.clone(),
                    queue: name_owned,
                    attempts: attempts + 1,
                };
                let ghost pre = self@;
                self.messages[b] = rec;
                proof {
                    assert(self@.messages =~= pre.messages.update(
                        b as int,
                        leased_message(pre.messages[b as int], now),
                    ));
                    lemma_wf_update_message(
                        pre,
                        self@,
                        b as int,
                        leased_message(pre.messages[b as int], now),
                    );
                    assert(out@ == received_from(pre.messages[b as int], queue@, now));
                    assert(receive_post_at(pre, self@, qi as int, queue@, now, opt_received(Some(out))));
                    assert(queue_named(pre, queue@, qi as int));
                }
                Some(out)
            },
        }
    }

    /// Inserts a fresh queue row at the position that keeps the table
    /// sorted by name; duplicate names or ids are conflicts, and
    /// out-of-range policy fields are validation errors.
    pub fn create_queue_with_id(
        &mut self,
        name: &str,
        max_attempts: i64,
        visibility_timeout_seconds: i64,
        id: u128,
        now: u64,
    ) -> (r: Result<(), AppError>)
        requires
            wf(old(self)@),
        ensures
            wf(final(self)@),
            create_queue_post(
                old(self)@,
                final(self)@,
                name@,
                max_attempts,
                visibility_timeout_seconds,
                id,
                now,
                r,
            ),
    {
        if max_attempts < 1 || visibility_timeout_seconds < 1 {
            return Err(AppError::Validation);
        }
        let name_owned: String = name.to_owned();
        match find_queue(&self.queues, &name_owned) {
            Some(qi) => {
                assert(queue_named(self@, name@, qi as int));
                return Err(AppError::Conflict);
            },
            None => {
                assert(!has_queue_named(self@, name@));
            },
        }
        if queue_id_taken(&self.queues, id) {
            proof {
                let k = choose|k: int|
                    0 <= k < self.queues@.len() && (#[trigger] self.queues@[k]).id == id;
                assert(self@.queues[k].id == id);
            }
            return Err(AppError::Conflict);
        }
        assert(!has_queue_with_id(self@, id)) by {
            if has_queue_with_id(self@, id) {
                let k = choose|k: int|
                    0 <= k < self@.queues.len() && (#[trigger] self@.queues[k]).id == id;
                assert(self.queues@[k].id == id);
            }
        }
        let n = self.queues.len();
        let mut p: usize = 0;
        while p < n && str_le(self.queues[p].name.as_str(), name)
            invariant
                p <= n,
                n == self@.queues.len(),
                forall|j: int|
                    0 <= j < p ==> crate::lex::name_le((#[trigger] self@.queues[j]).name, name@),
            decreases n - p,
        {
            p = p + 1;
        }
        let rec = QueueRecord {
            id,
            name: name_owned,
            max_attempts,
            visibility_timeout_seconds,
            inserted_at: now,
            updated_at: now,
        };
        let ghost pre = self@;
        let ghost q = new_queue(id, name@, max_attempts, visibility_timeout_seconds, now);
        let ghost vq = self.queues@;
        self.queues.insert(p, rec);
        proof {
            vq.insert_ensures(p as int, rec);
            pre.queues.insert_ensures(p as int, q);
            assert forall|k: int| 0 <= k < self@.queues.len() implies #[trigger] self@.queues[k]
                == pre.queues.insert(p as int, q)[k] by {
                if k < p {
                } else if k == p {
                } else {
                }
            }
            assert(self@.queues =~= pre.queues.insert(p as int, q));
            lemma_wf_insert_queue(pre, self@, p as int, q);
        }
        Ok(())
    }

    /// Creates a queue under a freshly drawn identifier. Whatever
    /// identifier comes back, the store moves by the creation transition
    /// for it.
    pub fn create_queue(
        &mut self,
        name: &str,
        max_attempts: i64,
        visibility_timeout_seconds: i64,
        now: u64,
    ) -> (r: Result<(), AppError>)
        requires
            wf(old(self)@),
        ensures
            wf(final(self)@),
            exists|id: u128|
                create_queue_post(
                    old(self)@,
                    final(self)@,
                    name@,
                    max_attempts,
                    visibility_timeout_seconds,
                    id,
                    now,
                    r,
                ),
    {
        let id = random_id();
        let r = self.create_queue_with_id(name, max_attempts, visibility_timeout_seconds, id, now);
        r
    }

    /// Writes the supplied policy fields of the named queue; a call with no
    /// fields, or on an absent queue, changes nothing.
    pub fn update_queue(&mut self, name: &str, params: &UpdateQueueRequest, now: u64) -> (r:
        Result<(), AppError>)
        requires
            wf(old(self)@),
        ensures
            wf(final(self)@),
            update_queue_post(
                old(self)@,
                final(self)@,
                name@,
                params.max_attempts,
                params.visibility_timeout_seconds,
                now,
                r,
            ),
    {
        if let Some(v) = params.max_attempts {
            if v < 1 {
                return Err(AppError::Validation);
            }
        }
        if let Some(v) = params.visibility_timeout_seconds {
            if v < 1 {
                return Err(AppError::Validation);
            }
        }
        if !params.is_some() {
            return Ok(());
        }
        let name_owned: String = name.to_owned();
        let qi = match find_queue(&self.queues, &name_owned) {
            None => {
                assert(!has_queue_named(self@, name@));
                return Ok(());
            },
            Some(qi) => qi,
        };
        assert(queue_named(self@, name@, qi as int));
        let rec = QueueRecord {
            id: self.queues[qi].id,
            name: self.queues[qi].name.clone(),
            max_attempts: match params.max_attempts {
                Some(v) => v,
                None => self.queues[qi].max_attempts,
            },
            visibility_timeout_seconds: match params.visibility_timeout_seconds {
                Some(v) => v,
                None => self.queues[qi].visibility_timeout_seconds,
            },
            inserted_at: self.queues[qi].inserted_at,
            updated_at: now,
        };
        let ghost pre = self@;
        let ghost q = patched_queue(
            pre.queues[qi as int],
            params.max_attempts,
            params.visibility_timeout_seconds,
            now,
        );
        self.queues[qi] = rec;
        proof {
            assert(self@.queues =~= pre.queues.update(qi as int, q));
            lemma_wf_update_queue(pre, self@, qi as int, q);
            assert(queue_named(pre, name@, qi as int));
        }
        Ok(())
    }

    /// Removes the named queue and, with it, every message it owned; a
    /// call on an absent queue changes nothing.
    pub fn delete_queue(&mut self, name: &str)
        requires
            wf(old(self)@),
        ensures
            wf(final(self)@),
            delete_queue_post(old(self)@, final(self)@, name@),
    {
        let name_owned: String = name.to_owned();
        let qi = match find_queue(&self.queues, &name_owned) {
            None => {
                assert(!has_queue_named(self@, name@));
                return;
            },
            Some(qi) => qi,
        };
        assert(queue_named(self@, name@, qi as int));
        let qid = self.queues[qi].id;
        let ghost pre = self@;
        assert(pre.queues[qi as int].id == qid);
        let n = self.messages.len();
        let mut kept: Vec<MessageRecord> = Vec::new();
        let ghost mut src_idx: Seq<int> = Seq::empty();
        let mut i: usize = 0;
        while i < n
            invariant
                i <= n,
                n == self.messages@.len(),
                self.messages@.map_values(|m: MessageRecord| m@) == pre.messages,
                kept@.map_values(|m: MessageRecord| m@) == pre.messages.take(i as int).filter(
                    keeps_other_queues(qid),
                ),
                src_idx.len() == kept@.len(),
                forall|k: int|
                    0 <= k < kept@.len() ==> 0 <= #[trigger] src_idx[k] < i
                        && kept@[k]@ == pre.messages[src_idx[k]]
                        && pre.messages[src_idx[k]].queue_id != qid,
                forall|a: int, b: int|
                    0 <= a < b < src_idx.len() ==> #[trigger] src_idx[a] < #[trigger] src_idx[b],
                wf(pre),
                pre.messages.len() == n,
            decreases n - i,
        {
            let ghost tprev = pre.messages.take(i as int);
            let ghost tcur = pre.messages.take(i as int + 1);
            proof {
                reveal(Seq::filter);
                assert(tcur.drop_last() =~= tprev);
                assert(tcur.last() == pre.messages[i as int]);
            }
            let keep = self.messages[i].queue_id != qid;
            if keep {
                let rec = clone_message(&self.messages[i]);
                let ghost kept_pre = kept@;
                kept.push(rec);
                proof {
                    reveal(Seq::filter);
                    src_idx = src_idx.push(i as int);
                    assert(kept@.map_values(|m: MessageRecord| m@) =~= kept_pre.map_values(
                        |m: MessageRecord| m@,
                    ).push(pre.messages[i as int]));
                    assert(tcur.filter(keeps_other_queues(qid)) == tprev.filter(
                        keeps_other_queues(qid),
                    ).push(pre.messages[i as int]));
                    assert(forall|k: int|
                        0 <= k < kept_pre.len() ==> #[trigger] kept@[k] == kept_pre[k]);
                    assert(kept@[kept_pre.len() as int]@ == pre.messages[i as int]);
                }
            } else {
                proof {
                    reveal(Seq::filter);
                    assert(tcur.filter(keeps_other_queues(qid)) == tprev.filter(
                        keeps_other_queues(qid),
                    ));
                }
            }
            i = i + 1;
        }
        proof {
            assert(pre.messages.take(n as int) =~= pre.messages);
        }
        let ghost keptg = kept@;
        let ghost vq = self.queues@;
        self.messages = kept;
        self.queues.remove(qi);
        proof {
            vq.remove_ensures(qi as int);
            pre.queues.remove_ensures(qi as int);
            assert forall|k: int| 0 <= k < self@.queues.len() implies #[trigger] self@.queues[k]
                == pre.queues.remove(qi as int)[k] by {
                if k < qi {
                } else {
                }
            }
            assert(self@.queues =~= pre.queues.remove(qi as int));
            assert(self@.messages == pre.messages.filter(keeps_other_queues(qid)));
            assert(self@.messages == keptg.map_values(|m: MessageRecord| m@));
            assert(forall|k: int|
                0 <= k < self@.messages.len() ==> #[trigger] self@.messages[k] == keptg[k]@);
            lemma_wf_delete_queue(pre, self@, qi as int, src_idx);
        }
    }

    /// The sweep: every leased message whose lease has expired is returned
    /// to `ready` while attempts remain, and retired to `failed` otherwise.
    pub fn unlock_messages_locked_longer_than_timeout(&mut self, now: u64)
        requires
            wf(old(self)@),
        ensures
            wf(final(self)@),
            sweep_post(old(self)@, final(self)@, now),
    {
        let ghost pre = self@;
        let n = self.messages.len();
        let mut i: usize = 0;
        while i < n
            invariant
                i <= n,
                n == self.messages@.len(),
                self@.queues == pre.queues,
                wf(pre),
                pre.messages.len() == n,
                forall|j: int| i <= j < n ==> #[trigger] self@.messages[j] == pre.messages[j],
                forall|j: int|
                    0 <= j < i ==> #[trigger] self@.messages[j] == sweep_one(
                        pre,
                        pre.messages[j],
                        now,
                    ),
            decreases n - i,
        {
            let leased = self.messages[i].locked_at.is_some()
                && self.messages[i].completed_at.is_none()
                && self.messages[i].failed_at.is_none();
            if leased {
                let qid = self.messages[i].queue_id;
                proof {
                    assert(self@.messages[i as int] == pre.messages[i as int]);
                    assert(qid == pre.messages[i as int].queue_id);
                    assert(has_queue_with_id(pre, pre.messages[i as int].queue_id));
                    let kk = choose|qi: int|
                        0 <= qi < pre.queues.len() && (#[trigger] pre.queues[qi]).id
                            == pre.messages[i as int].queue_id;
                    assert(self@.queues[kk] == pre.queues[kk]);
                    assert(self.queues@[kk]@ == self@.queues[kk]);
                    assert(self.queues@[kk]@.id == qid);
                }
                let k = find_queue_index_by_id(&self.queues, qid);
                proof {
                    lemma_queue_with_id_is(pre, k as int, qid);
                }
                let vts = self.queues[k].visibility_timeout_seconds;
                let ma = self.queues[k].max_attempts;
                assert(vts >= 1 && ma >= 1);
                if let Some(t) = self.messages[i].locked_at {
                    let expired = (now as u128) > (t as u128) + (vts as u128) * 1000;
                    assert(expired == lease_expired(pre.messages[i as int], vts, now));
                    if expired {
                        let retire = self.messages[i].attempts > ma;
                        let rec = MessageRecord {
                            id: self.messages[i].id,
                            queue_id: self.messages[i].queue_id,
                            args: self.messages[i].args.clone(),
                            attempts: self.messages[i].attempts,
                            inserted_at: self.messages[i].inserted_at,
                            updated_at: now,
                            locked_at: None,
                            completed_at: self.messages[i].completed_at,
                            failed_at: if retire {
                                Some(now)
                            } else {
                                self.messages[i].failed_at
                            },
                        };
                        let ghost snap = self@;
                        self.messages[i] = rec;
                        proof {
                            assert(self@.messages[i as int] == sweep_one(
                                pre,
                                pre.messages[i as int],
                                now,
                            ));
                            assert(forall|j: int|
                                0 <= j < n && j != i ==> #[trigger] self@.messages[j]
                                    == snap.messages[j]);
                        }
                    }
                }
            }
            proof {
                assert(self@.messages[i as int] == sweep_one(pre, pre.messages[i as int], now));
            }
            i = i + 1;
        }
        proof {
            lemma_wf_sweep(pre, self@, now);
        }
    }

    /// The dashboard projection: up to `limit` rows, every message joined
    /// with its queue's name, most recently updated first.
    pub fn messages_sample(&self, limit: usize) -> (r: Vec<Job>)
        requires
            wf(self@),
        ensures
            sample_post(self@, limit as int, r@.map_values(|job: Job| job@)),
            r@.len() == if (limit as int) <= self@.messages.len() {
                limit as int
            } else {
                self@.messages.len() as int
            },
            forall|a: int, b: int|
                0 <= a < b < r@.len() ==> sample_ge((#[trigger] r@[a])@, (#[trigger] r@[b])@),
    {
        let n = self.messages.len();
        let mut sorted: Vec<Job> = Vec::new();
        let mut i: usize = 0;
        proof {
            assert(sorted@.map_values(|job: Job| job@) =~= self@.messages.take(0).map_values(
                |m: MessageModel| job_of(self@, m),
            ));
        }
        while i < n
            invariant
                i <= n,
                n == self.messages@.len(),
                wf(self@),
                sorted@.len() == i,
                sorted@.map_values(|job: Job| job@).to_multiset() == self@.messages.take(
                    i as int,
                ).map_values(|m: MessageModel| job_of(self@, m)).to_multiset(),
                forall|a: int, b: int|
                    0 <= a < b < sorted@.len() ==> sample_ge(
                        (#[trigger] sorted@[a])@,
                        (#[trigger] sorted@[b])@,
                    ),
            decreases n - i,
        {
            let qid = self.messages[i].queue_id;
            proof {
                assert(qid == self@.messages[i as int].queue_id);
                assert(has_queue_with_id(self@, self@.messages[i as int].queue_id));
                let kk = choose|qi: int|
                    0 <= qi < self@.queues.len() && (#[trigger] self@.queues[qi]).id == qid;
                assert(self.queues@[kk]@.id == qid);
            }
            let k = find_queue_index_by_id(&self.queues, qid);
            proof {
                lemma_queue_with_id_is(self@, k as int, qid);
            }
            let job = Job {
                id: self.messages[i].id,
                args: self.messages[i].args.clone(),
                queue_name: self.queues[k].name.clone(),
                attempts: self.messages[i].attempts,
                inserted_at: self.messages[i].inserted_at,
                updated_at: self.messages[i].updated_at,
                locked_at: self.messages[i].locked_at,
                completed_at: self.messages[i].completed_at,
                failed_at: self.messages[i].failed_at,
            };
            assert(job@ == job_of(self@, self@.messages[i as int]));
            let m = sorted.len();
            let mut p: usize = 0;
            while p < m && job_ge(&sorted[p], &job)
                invariant
                    p <= m,
                    m == sorted@.len(),
                    forall|j: int| 0 <= j < p ==> sample_ge((#[trigger] sorted@[j])@, job@),
                decreases m - p,
            {
                p = p + 1;
            }
            let ghost snap = sorted@;
            let ghost jobm = job@;
            sorted.insert(p, job);
            proof {
                snap.insert_ensures(p as int, sorted@[p as int]);
                assert(sorted@ == snap.insert(p as int, sorted@[p as int]));
                if (p as int) < m {
                    lemma_sample_ge_total(snap[p as int]@, jobm);
                }
                assert forall|a: int, b: int|
                    0 <= a < b < sorted@.len() implies sample_ge(
                    (#[trigger] sorted@[a])@,
                    (#[trigger] sorted@[b])@,
                ) by {
                    if a == p as int {
                        assert(sorted@[a]@ == jobm);
                        assert(sorted@[b] == snap[b - 1]);
                        assert(sample_ge(jobm, snap[p as int]@));
                        if b - 1 > p as int {
                            lemma_sample_ge_trans(jobm, snap[p as int]@, snap[b - 1]@);
                        }
                    } else if b == p as int {
                        assert(sorted@[a] == snap[a]);
                        assert(sorted@[b]@ == jobm);
                    } else if a < (p as int) && b > (p as int) {
                        assert(sorted@[a] == snap[a]);
                        assert(sorted@[b] == snap[b - 1]);
                        if a < b - 1 {
                        } else {
                            assert(a == b - 1);
                            assert(a < p as int);
                            assert((p as int) < b);
                            assert(false);
                        }
                    } else if b < p as int {
                        assert(sorted@[a] == snap[a]);
                        assert(sorted@[b] == snap[b]);
                    } else {
                        assert(sorted@[a] == snap[a - 1]);
                        assert(sorted@[b] == snap[b - 1]);
                    }
                }
                let smap = snap.map_values(|job: Job| job@);
                assert(sorted@.map_values(|job: Job| job@) =~= smap.insert(p as int, jobm));
                vstd::seq_lib::to_multiset_insert::<JobModel>(smap, p as int, jobm);
                let tprev = self@.messages.take(i as int).map_values(
                    |mm: MessageModel| job_of(self@, mm),
                );
                let tcur = self@.messages.take(i as int + 1).map_values(
                    |mm: MessageModel| job_of(self@, mm),
                );
                assert(tcur =~= tprev.push(jobm));
                vstd::seq_lib::to_multiset_build::<JobModel>(tprev, jobm);
                assert(sorted@.map_values(|job: Job| job@).to_multiset() =~= tcur.to_multiset());
            }
            i = i + 1;
        }
        proof {
            assert(self@.messages.take(n as int) =~= self@.messages);
        }
        let ghost allg = sorted@.map_values(|job: Job| job@);
        sorted.truncate(limit);
        proof {
            if limit <= allg.len() {
                assert(sorted@ == sorted@.subrange(0, sorted@.len() as int));
            }
            assert(sorted@.map_values(|job: Job| job@) =~= allg.take(
                if (limit as int) <= allg.len() {
                    limit as int
                } else {
                    allg.len() as int
                },
            ));
            assert(sample_post(self@, limit as int, sorted@.map_values(|job: Job| job@)));
        }
        sorted
    }
}

} // verus!
