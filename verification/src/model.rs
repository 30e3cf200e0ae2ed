use vstd::prelude::*;
use vstd::utf8::encode_utf8;
use crate::json::json_well_formed;
use crate::lex::{lemma_lex_le_total, lemma_lex_le_trans, lex_le};
use crate::AppError;

verus! {

// ---------------------------------------------------------------------------
// The mathematical model of the store: one record per queue row and per
// message row, and a pair of sequences standing for the two tables.
// ---------------------------------------------------------------------------

/// Model of a queue row.
#[verifier::ext_equal]
pub struct QueueModel {
    pub id: u128,
    pub name: Seq<char>,
    pub max_attempts: i64,
    pub visibility_timeout_seconds: i64,
    pub inserted_at: u64,
    pub updated_at: u64,
}

/// Model of a message row. All timestamps are milliseconds since the epoch.
#[verifier::ext_equal]
pub struct MessageModel {
    pub id: u128,
    pub queue_id: u128,
    pub args: Seq<char>,
    pub attempts: i64,
    pub inserted_at: u64,
    pub updated_at: u64,
    pub locked_at: Option<u64>,
    pub completed_at: Option<u64>,
    pub failed_at: Option<u64>,
}

/// Model of the whole store.
#[verifier::ext_equal]
pub struct StoreModel {
    pub queues: Seq<QueueModel>,
    pub messages: Seq<MessageModel>,
}

/// Model of a delivered message, as handed to a consumer.
#[verifier::ext_equal]
pub struct ReceivedModel {
    pub id: u128,
    pub args: Seq<char>,
    pub queue: Seq<char>,
    pub attempts: i64,
}

/// Model of a dashboard row: a message joined with its queue's name.
#[verifier::ext_equal]
pub struct JobModel {
    pub id: u128,
    pub args: Seq<char>,
    pub queue_name: Seq<char>,
    pub attempts: i64,
    pub inserted_at: u64,
    pub updated_at: u64,
    pub locked_at: Option<u64>,
    pub completed_at: Option<u64>,
    pub failed_at: Option<u64>,
}

// ---------------------------------------------------------------------------
// Message lifecycle states. Each message is in exactly one of the four
// states whenever `state_exclusive` holds (see `lemma_state_exclusivity`).
// ---------------------------------------------------------------------------

pub open spec fn is_ready(m: MessageModel) -> bool {
    m.locked_at is None && m.completed_at is None && m.failed_at is None
}

pub open spec fn is_leased(m: MessageModel) -> bool {
    m.locked_at is Some && m.completed_at is None && m.failed_at is None
}

pub open spec fn is_completed(m: MessageModel) -> bool {
    m.completed_at is Some && m.locked_at is None && m.failed_at is None
}

pub open spec fn is_failed(m: MessageModel) -> bool {
    m.failed_at is Some && m.locked_at is None && m.completed_at is None
}

/// Terminal states are absorbing: no transition leaves them.
pub open spec fn is_terminal(m: MessageModel) -> bool {
    is_completed(m) || is_failed(m)
}

/// At most one of the three state timestamps is set.
pub open spec fn state_exclusive(m: MessageModel) -> bool {
    &&& m.locked_at is Some ==> m.completed_at is None && m.failed_at is None
    &&& m.completed_at is Some ==> m.failed_at is None
}

pub open spec fn queue_ok(q: QueueModel) -> bool {
    q.max_attempts >= 1 && q.visibility_timeout_seconds >= 1
}

pub open spec fn message_ok(m: MessageModel) -> bool {
    m.attempts >= 0 && state_exclusive(m)
}

// ---------------------------------------------------------------------------
// Well-formedness of the store: unique ids, unique queue names kept sorted
// by their byte order, valid numeric policy fields, referential integrity,
// and per-message state exclusivity.
// ---------------------------------------------------------------------------

pub open spec fn wf(s: StoreModel) -> bool {
    &&& forall|i: int, j: int|
        0 <= i < j < s.queues.len() ==> #[trigger] s.queues[i].id != #[trigger] s.queues[j].id
    &&& forall|i: int, j: int|
        0 <= i < j < s.queues.len() ==> #[trigger] s.queues[i].name != #[trigger] s.queues[j].name
    &&& forall|i: int, j: int|
        0 <= i < j < s.queues.len() ==> lex_le(
            encode_utf8(#[trigger] s.queues[i].name),
            encode_utf8(#[trigger] s.queues[j].name),
        )
    &&& forall|i: int| 0 <= i < s.queues.len() ==> queue_ok(#[trigger] s.queues[i])
    &&& forall|i: int, j: int|
        0 <= i < j < s.messages.len() ==> #[trigger] s.messages[i].id != #[trigger] s.messages[j].id
    &&& forall|i: int| 0 <= i < s.messages.len() ==> message_ok(#[trigger] s.messages[i])
    &&& forall|i: int|
        0 <= i < s.messages.len() ==> has_queue_with_id(s, #[trigger] s.messages[i].queue_id)
}

// ---------------------------------------------------------------------------
// Lookup helpers.
// ---------------------------------------------------------------------------

pub open spec fn queue_named(s: StoreModel, name: Seq<char>, qi: int) -> bool {
    0 <= qi < s.queues.len() && s.queues[qi].name == name
}

pub open spec fn has_queue_named(s: StoreModel, name: Seq<char>) -> bool {
    exists|qi: int| queue_named(s, name, qi)
}

pub open spec fn has_queue_with_id(s: StoreModel, qid: u128) -> bool {
    exists|qi: int| 0 <= qi < s.queues.len() && (#[trigger] s.queues[qi]).id == qid
}

/// The queue row holding `qid`; meaningful whenever `has_queue_with_id` holds
/// (under `wf` that row is unique).
pub open spec fn queue_with_id(s: StoreModel, qid: u128) -> QueueModel {
    s.queues[choose|qi: int| 0 <= qi < s.queues.len() && (#[trigger] s.queues[qi]).id == qid]
}

pub open spec fn message_with_id(s: StoreModel, mi: int, id: u128) -> bool {
    0 <= mi < s.messages.len() && s.messages[mi].id == id
}

pub open spec fn has_message_with_id(s: StoreModel, id: u128) -> bool {
    exists|mi: int| message_with_id(s, mi, id)
}

pub open spec fn leased_with_id(s: StoreModel, mi: int, id: u128) -> bool {
    message_with_id(s, mi, id) && is_leased(s.messages[mi])
}

// ---------------------------------------------------------------------------
// Record constructors used by the transitions.
// ---------------------------------------------------------------------------

pub open spec fn new_queue(id: u128, name: Seq<char>, max_attempts: i64, visibility_timeout_seconds: i64, now: u64) -> QueueModel {
    QueueModel {
        id,
        name,
        max_attempts,
        visibility_timeout_seconds,
        inserted_at: now,
        updated_at: now,
    }
}

pub open spec fn new_message(id: u128, queue_id: u128, args: Seq<char>, now: u64) -> MessageModel {
    MessageModel {
        id,
        queue_id,
        args,
        attempts: 0,
        inserted_at: now,
        updated_at: now,
        locked_at: None,
        completed_at: None,
        failed_at: None,
    }
}

/// The message after a successful lease acquisition.
pub open spec fn leased_message(m: MessageModel, now: u64) -> MessageModel {
    MessageModel {
        attempts: (m.attempts + 1) as i64,
        updated_at: now,
        locked_at: Some(now),
        ..m
    }
}

/// The message after an explicit completion.
pub open spec fn completed_message(m: MessageModel, now: u64) -> MessageModel {
    MessageModel { updated_at: now, locked_at: None, completed_at: Some(now), ..m }
}

/// The message after an explicit failure.
pub open spec fn failed_message(m: MessageModel, now: u64) -> MessageModel {
    MessageModel { updated_at: now, locked_at: None, failed_at: Some(now), ..m }
}

/// The message after the sweeper returns it to `ready`.
pub open spec fn unlocked_message(m: MessageModel, now: u64) -> MessageModel {
    MessageModel { updated_at: now, locked_at: None, ..m }
}

/// The message after the sweeper retires it to `failed`.
pub open spec fn retired_message(m: MessageModel, now: u64) -> MessageModel {
    MessageModel { updated_at: now, locked_at: None, failed_at: Some(now), ..m }
}

pub open spec fn patched_queue(q: QueueModel, max_attempts: Option<i64>, visibility_timeout_seconds: Option<i64>, now: u64) -> QueueModel {
    QueueModel {
        max_attempts: match max_attempts {
            Some(v) => v,
            None => q.max_attempts,
        },
        visibility_timeout_seconds: match visibility_timeout_seconds {
            Some(v) => v,
            None => q.visibility_timeout_seconds,
        },
        updated_at: now,
        ..q
    }
}

pub open spec fn received_from(m: MessageModel, name: Seq<char>, now: u64) -> ReceivedModel {
    ReceivedModel { id: m.id, args: m.args, queue: name, attempts: (m.attempts + 1) as i64 }
}

// ---------------------------------------------------------------------------
// Lease expiry. A lease is expired once strictly more than
// `visibility_timeout_seconds` have elapsed since `locked_at`, compared at
// millisecond precision.
// ---------------------------------------------------------------------------

pub open spec fn lease_expired(m: MessageModel, visibility_timeout_seconds: i64, now: u64) -> bool {
    match m.locked_at {
        Some(t) => now as int - t as int > visibility_timeout_seconds as int * 1000,
        None => false,
    }
}

// ---------------------------------------------------------------------------
// Transition relations, one per store operation. Each relates the store
// before the call, the store after it, the operation's inputs, and its
// result. The executable methods ensure exactly these relations.
// ---------------------------------------------------------------------------

/// Queue creation: validation, then uniqueness of both name and id, then
/// insertion at the position that keeps the table sorted by name.
pub open spec fn create_queue_post(
    pre: StoreModel,
    post: StoreModel,
    name: Seq<char>,
    max_attempts: i64,
    visibility_timeout_seconds: i64,
    id: u128,
    now: u64,
    out: Result<(), AppError>,
) -> bool {
    if max_attempts < 1 || visibility_timeout_seconds < 1 {
        post == pre && out == Err::<(), AppError>(AppError::Validation)
    } else if has_queue_named(pre, name) || has_queue_with_id(pre, id) {
        post == pre && out == Err::<(), AppError>(AppError::Conflict)
    } else {
        &&& out == Ok::<(), AppError>(())
        &&& post.messages == pre.messages
        &&& exists|i: int|
            0 <= i <= pre.queues.len() && post.queues == pre.queues.insert(
                i,
                new_queue(id, name, max_attempts, visibility_timeout_seconds, now),
            )
    }
}

/// Partial queue update: only the supplied fields are written, and a call
/// with no fields, or on an absent queue, changes nothing.
pub open spec fn update_queue_post(
    pre: StoreModel,
    post: StoreModel,
    name: Seq<char>,
    max_attempts: Option<i64>,
    visibility_timeout_seconds: Option<i64>,
    now: u64,
    out: Result<(), AppError>,
) -> bool {
    if (match max_attempts {
        Some(v) => v < 1,
        None => false,
    }) || (match visibility_timeout_seconds {
        Some(v) => v < 1,
        None => false,
    }) {
        post == pre && out == Err::<(), AppError>(AppError::Validation)
    } else if max_attempts is None && visibility_timeout_seconds is None {
        post == pre && out == Ok::<(), AppError>(())
    } else if !has_queue_named(pre, name) {
        post == pre && out == Ok::<(), AppError>(())
    } else {
        &&& out == Ok::<(), AppError>(())
        &&& post.messages == pre.messages
        &&& exists|qi: int|
            queue_named(pre, name, qi) && post.queues == pre.queues.update(
                qi,
                patched_queue(pre.queues[qi], max_attempts, visibility_timeout_seconds, now),
            )
    }
}

/// Keeps the messages that do not belong to the queue holding `qid`.
pub open spec fn keeps_other_queues(qid: u128) -> spec_fn(MessageModel) -> bool {
    |m: MessageModel| m.queue_id != qid
}

/// Queue deletion cascades to every message of the queue.
pub open spec fn delete_queue_post(pre: StoreModel, post: StoreModel, name: Seq<char>) -> bool {
    if !has_queue_named(pre, name) {
        post == pre
    } else {
        exists|qi: int|
            {
                &&& #[trigger] queue_named(pre, name, qi)
                &&& post.queues == pre.queues.remove(qi)
                &&& post.messages == pre.messages.filter(keeps_other_queues(pre.queues[qi].id))
            }
    }
}

/// Enqueue: the payload must be well-formed JSON, the queue must exist, the
/// fresh id must not collide; then a `ready` message is appended.
pub open spec fn enqueue_post(
    pre: StoreModel,
    post: StoreModel,
    name: Seq<char>,
    body: Seq<char>,
    id: u128,
    now: u64,
    out: Result<u128, AppError>,
) -> bool {
    if !json_well_formed(body) {
        post == pre && out == Err::<u128, AppError>(AppError::BadInput)
    } else if !has_queue_named(pre, name) {
        post == pre && out == Err::<u128, AppError>(AppError::NotFound)
    } else if has_message_with_id(pre, id) {
        post == pre && out == Err::<u128, AppError>(AppError::Conflict)
    } else {
        &&& out == Ok::<u128, AppError>(id)
        &&& post.queues == pre.queues
        &&& exists|qi: int|
            queue_named(pre, name, qi) && post.messages == pre.messages.push(
                new_message(id, pre.queues[qi].id, body, now),
            )
    }
}

/// A message is eligible for delivery from queue `qi` when it belongs to
/// that queue, is `ready`, and has attempts left.
pub open spec fn eligible(s: StoreModel, qi: int, mi: int) -> bool {
    &&& 0 <= mi < s.messages.len()
    &&& s.messages[mi].queue_id == s.queues[qi].id
    &&& is_ready(s.messages[mi])
    &&& s.messages[mi].attempts < s.queues[qi].max_attempts
}

/// The delivered message is the eligible one with the smallest
/// `updated_at`; among equals, the earliest row wins.
pub open spec fn receive_picks(s: StoreModel, qi: int, mi: int) -> bool {
    &&& eligible(s, qi, mi)
    &&& forall|mj: int|
        #[trigger] eligible(s, qi, mj) ==> s.messages[mi].updated_at <= s.messages[mj].updated_at
    &&& forall|mj: int|
        #[trigger] eligible(s, qi, mj) && mj < mi ==> s.messages[mj].updated_at
            > s.messages[mi].updated_at
}

pub open spec fn receive_post_at(
    pre: StoreModel,
    post: StoreModel,
    qi: int,
    name: Seq<char>,
    now: u64,
    out: Option<ReceivedModel>,
) -> bool {
    if !(exists|mi: int| eligible(pre, qi, mi)) {
        post == pre && out is None
    } else {
        exists|mi: int|
            {
                &&& #[trigger] receive_picks(pre, qi, mi)
                &&& post.queues == pre.queues
                &&& post.messages == pre.messages.update(mi, leased_message(pre.messages[mi], now))
                &&& out == Some(received_from(pre.messages[mi], name, now))
            }
    }
}

/// Receive: atomically lease the selected message, or return nothing; a
/// receive on an absent queue also returns nothing.
pub open spec fn receive_post(
    pre: StoreModel,
    post: StoreModel,
    name: Seq<char>,
    now: u64,
    out: Option<ReceivedModel>,
) -> bool {
    if !has_queue_named(pre, name) {
        post == pre && out is None
    } else {
        exists|qi: int| #[trigger] queue_named(pre, name, qi) && receive_post_at(pre, post, qi, name, now, out)
    }
}

/// Complete: a leased message with this id becomes `completed`; any other
/// store is left untouched, silently.
pub open spec fn complete_post(pre: StoreModel, post: StoreModel, id: u128, now: u64) -> bool {
    if exists|mi: int| leased_with_id(pre, mi, id) {
        exists|mi: int|
            {
                &&& #[trigger] leased_with_id(pre, mi, id)
                &&& post.queues == pre.queues
                &&& post.messages == pre.messages.update(mi, completed_message(pre.messages[mi], now))
            }
    } else {
        post == pre
    }
}

/// Fail: symmetric to `complete_post`.
pub open spec fn fail_post(pre: StoreModel, post: StoreModel, id: u128, now: u64) -> bool {
    if exists|mi: int| leased_with_id(pre, mi, id) {
        exists|mi: int|
            {
                &&& #[trigger] leased_with_id(pre, mi, id)
                &&& post.queues == pre.queues
                &&& post.messages == pre.messages.update(mi, failed_message(pre.messages[mi], now))
            }
    } else {
        post == pre
    }
}

/// What the sweep does to one message: an expired lease is returned to
/// `ready` while attempts remain, and retired to `failed` otherwise.
pub open spec fn sweep_one(s: StoreModel, m: MessageModel, now: u64) -> MessageModel {
    let q = queue_with_id(s, m.queue_id);
    if is_leased(m) && lease_expired(m, q.visibility_timeout_seconds, now) {
        if m.attempts <= q.max_attempts {
            unlocked_message(m, now)
        } else {
            retired_message(m, now)
        }
    } else {
        m
    }
}

/// Sweep: every message is reconciled pointwise against its queue's policy.
pub open spec fn sweep_post(pre: StoreModel, post: StoreModel, now: u64) -> bool {
    &&& post.queues == pre.queues
    &&& post.messages.len() == pre.messages.len()
    &&& forall|mi: int|
        0 <= mi < pre.messages.len() ==> #[trigger] post.messages[mi] == sweep_one(
            pre,
            pre.messages[mi],
            now,
        )
}

// ---------------------------------------------------------------------------
// Preservation lemmas used by the store's methods.
// ---------------------------------------------------------------------------

/// Referential integrity only looks at the queue table, so it carries over
/// to any store with the same queues.
pub proof fn lemma_has_queue_same(pre: StoreModel, post: StoreModel, qid: u128)
    requires
        post.queues == pre.queues,
        has_queue_with_id(pre, qid),
    ensures
        has_queue_with_id(post, qid),
{
    let qi = choose|qi: int| 0 <= qi < pre.queues.len() && (#[trigger] pre.queues[qi]).id == qid;
    assert(0 <= qi < post.queues.len() && post.queues[qi].id == qid);
}

/// Replacing one message with a well-formed record that keeps its identity
/// and owner preserves well-formedness of the store.
pub proof fn lemma_wf_update_message(pre: StoreModel, post: StoreModel, mi: int, m: MessageModel)
    requires
        wf(pre),
        0 <= mi < pre.messages.len(),
        post.queues == pre.queues,
        post.messages == pre.messages.update(mi, m),
        m.id == pre.messages[mi].id,
        m.queue_id == pre.messages[mi].queue_id,
        message_ok(m),
    ensures
        wf(post),
{
    assert(forall|k: int|
        0 <= k < post.messages.len() ==> (#[trigger] post.messages[k]).id == pre.messages[k].id
            && post.messages[k].queue_id == pre.messages[k].queue_id);
    assert forall|j: int|
        0 <= j < post.messages.len() implies has_queue_with_id(
        post,
        (#[trigger] post.messages[j]).queue_id,
    ) by {
        assert(has_queue_with_id(pre, pre.messages[j].queue_id));
        lemma_has_queue_same(pre, post, post.messages[j].queue_id);
    }
}

/// Appending a well-formed message with a fresh id and an existing owner
/// preserves well-formedness of the store.
pub proof fn lemma_wf_push_message(pre: StoreModel, post: StoreModel, m: MessageModel)
    requires
        wf(pre),
        post.queues == pre.queues,
        post.messages == pre.messages.push(m),
        message_ok(m),
        !has_message_with_id(pre, m.id),
        has_queue_with_id(pre, m.queue_id),
    ensures
        wf(post),
{
    let n = pre.messages.len() as int;
    assert(forall|k: int| 0 <= k < n ==> post.messages[k] == pre.messages[k]);
    assert(post.messages[n] == m);
    assert forall|i: int, j: int|
        0 <= i < j < post.messages.len() implies (#[trigger] post.messages[i]).id
        != (#[trigger] post.messages[j]).id by {
        if j == n {
            assert(!message_with_id(pre, i, m.id));
        }
    }
    assert forall|j: int|
        0 <= j < post.messages.len() implies has_queue_with_id(
        post,
        (#[trigger] post.messages[j]).queue_id,
    ) by {
        if j < n {
            assert(has_queue_with_id(pre, pre.messages[j].queue_id));
        }
        lemma_has_queue_same(pre, post, post.messages[j].queue_id);
    }
}

/// Inserting a fresh, valid queue at the position that respects the name
/// order preserves well-formedness of the store.
pub proof fn lemma_wf_insert_queue(pre: StoreModel, post: StoreModel, p: int, q: QueueModel)
    requires
        wf(pre),
        0 <= p <= pre.queues.len(),
        post.queues == pre.queues.insert(p, q),
        post.messages == pre.messages,
        queue_ok(q),
        forall|j: int| 0 <= j < pre.queues.len() ==> (#[trigger] pre.queues[j]).name != q.name,
        forall|j: int| 0 <= j < pre.queues.len() ==> (#[trigger] pre.queues[j]).id != q.id,
        forall|j: int|
            0 <= j < p ==> lex_le(encode_utf8((#[trigger] pre.queues[j]).name), encode_utf8(q.name)),
        p == pre.queues.len() || !lex_le(encode_utf8(pre.queues[p].name), encode_utf8(q.name)),
    ensures
        wf(post),
{
    let n = pre.queues.len() as int;
    pre.queues.insert_ensures(p, q);
    assert(forall|k: int| 0 <= k < p ==> #[trigger] post.queues[k] == pre.queues[k]);
    assert(forall|k: int| p < k < n + 1 ==> #[trigger] post.queues[k] == pre.queues[k - 1]);
    assert(post.queues[p] == q);
    if p < n {
        lemma_lex_le_total(encode_utf8(pre.queues[p].name), encode_utf8(q.name));
    }
    assert forall|i: int, j: int|
        0 <= i < j < post.queues.len() implies lex_le(
        encode_utf8((#[trigger] post.queues[i]).name),
        encode_utf8((#[trigger] post.queues[j]).name),
    ) by {
        if i == p && j > p {
            if j - 1 > p {
                lemma_lex_le_trans(
                    encode_utf8(q.name),
                    encode_utf8(pre.queues[p].name),
                    encode_utf8(pre.queues[j - 1].name),
                );
            }
        }
    }
    assert forall|j: int|
        0 <= j < post.messages.len() implies has_queue_with_id(
        post,
        (#[trigger] post.messages[j]).queue_id,
    ) by {
        let qid = post.messages[j].queue_id;
        assert(has_queue_with_id(pre, pre.messages[j].queue_id));
        let qi = choose|qi: int| 0 <= qi < pre.queues.len() && (#[trigger] pre.queues[qi]).id == qid;
        if qi < p {
            assert(post.queues[qi].id == qid);
        } else {
            assert(post.queues[qi + 1].id == qid);
        }
    }
}

/// Re-writing one queue's policy fields in place, keeping its identity and
/// name, preserves well-formedness of the store.
pub proof fn lemma_wf_update_queue(pre: StoreModel, post: StoreModel, qi: int, q: QueueModel)
    requires
        wf(pre),
        0 <= qi < pre.queues.len(),
        post.queues == pre.queues.update(qi, q),
        post.messages == pre.messages,
        q.id == pre.queues[qi].id,
        q.name == pre.queues[qi].name,
        queue_ok(q),
    ensures
        wf(post),
{
    assert(forall|k: int|
        0 <= k < post.queues.len() ==> (#[trigger] post.queues[k]).id == pre.queues[k].id
            && post.queues[k].name == pre.queues[k].name);
    assert forall|j: int|
        0 <= j < post.messages.len() implies has_queue_with_id(
        post,
        (#[trigger] post.messages[j]).queue_id,
    ) by {
        let qid = post.messages[j].queue_id;
        assert(has_queue_with_id(pre, pre.messages[j].queue_id));
        let qk = choose|qk: int| 0 <= qk < pre.queues.len() && (#[trigger] pre.queues[qk]).id == qid;
        assert(post.queues[qk].id == qid);
    }
}

/// Removing a queue row together with every message that referenced it
/// preserves well-formedness of the store. The messages of the resulting
/// store are characterised by membership: each one is some surviving
/// message of the old store.
pub proof fn lemma_wf_delete_queue(pre: StoreModel, post: StoreModel, qi: int, src_idx: Seq<int>)
    requires
        wf(pre),
        0 <= qi < pre.queues.len(),
        post.queues == pre.queues.remove(qi),
        src_idx.len() == post.messages.len(),
        forall|k: int|
            0 <= k < post.messages.len() ==> 0 <= #[trigger] src_idx[k] < pre.messages.len()
                && post.messages[k] == pre.messages[src_idx[k]]
                && pre.messages[src_idx[k]].queue_id != pre.queues[qi].id,
        forall|a: int, b: int|
            0 <= a < b < src_idx.len() ==> #[trigger] src_idx[a] < #[trigger] src_idx[b],
    ensures
        wf(post),
{
    let n = pre.queues.len() as int;
    pre.queues.remove_ensures(qi);
    assert(forall|k: int| 0 <= k < qi ==> #[trigger] post.queues[k] == pre.queues[k]);
    assert(forall|k: int| qi <= k < n - 1 ==> #[trigger] post.queues[k] == pre.queues[k + 1]);
    assert forall|a: int, b: int|
        0 <= a < b < post.messages.len() implies (#[trigger] post.messages[a]).id
        != (#[trigger] post.messages[b]).id by {
        assert(post.messages[a] == pre.messages[src_idx[a]]);
        assert(post.messages[b] == pre.messages[src_idx[b]]);
        assert(src_idx[a] < src_idx[b]);
        assert(pre.messages[src_idx[a]].id != pre.messages[src_idx[b]].id);
    }
    assert forall|k: int|
        0 <= k < post.messages.len() implies message_ok(#[trigger] post.messages[k])
        && has_queue_with_id(post, post.messages[k].queue_id) by {
        let j = src_idx[k];
        assert(message_ok(pre.messages[j]));
        let qid = post.messages[k].queue_id;
        assert(has_queue_with_id(pre, pre.messages[j].queue_id));
        let qk = choose|qk: int| 0 <= qk < pre.queues.len() && (#[trigger] pre.queues[qk]).id == qid;
        assert(qk != qi);
        if qk < qi {
            assert(post.queues[qk].id == qid);
        } else {
            assert(post.queues[qk - 1].id == qid);
        }
    }
}

/// Under `wf`, `queue_with_id` agrees with any row that holds the id.
pub proof fn lemma_queue_with_id_is(s: StoreModel, k: int, qid: u128)
    requires
        wf(s),
        0 <= k < s.queues.len(),
        s.queues[k].id == qid,
    ensures
        queue_with_id(s, qid) == s.queues[k],
{
    let qc = choose|qi: int| 0 <= qi < s.queues.len() && (#[trigger] s.queues[qi]).id == qid;
    assert(0 <= qc < s.queues.len() && s.queues[qc].id == qid);
}

/// The sweep keeps every message's identity and owner and leaves each
/// record well-formed, so it preserves well-formedness of the store.
pub proof fn lemma_wf_sweep(pre: StoreModel, post: StoreModel, now: u64)
    requires
        wf(pre),
        sweep_post(pre, post, now),
    ensures
        wf(post),
{
    assert(forall|j: int|
        0 <= j < post.messages.len() ==> (#[trigger] post.messages[j]).id == pre.messages[j].id
            && post.messages[j].queue_id == pre.messages[j].queue_id
            && message_ok(post.messages[j]));
    assert forall|j: int|
        0 <= j < post.messages.len() implies has_queue_with_id(
        post,
        (#[trigger] post.messages[j]).queue_id,
    ) by {
        assert(has_queue_with_id(pre, pre.messages[j].queue_id));
        lemma_has_queue_same(pre, post, post.messages[j].queue_id);
    }
}

/// The dashboard row for message `m` of store `s`.
pub open spec fn job_of(s: StoreModel, m: MessageModel) -> JobModel {
    JobModel {
        id: m.id,
        args: m.args,
        queue_name: queue_with_id(s, m.queue_id).name,
        attempts: m.attempts,
        inserted_at: m.inserted_at,
        updated_at: m.updated_at,
        locked_at: m.locked_at,
        completed_at: m.completed_at,
        failed_at: m.failed_at,
    }
}

/// An absent timestamp sorts below every present one.
pub open spec fn opt_rank(o: Option<u64>) -> int {
    match o {
        Some(v) => v as int,
        None => -1,
    }
}

/// Dashboard order: `a` appears no later than `b`. Rows are listed most
/// recently updated first, with the remaining timestamps as tie-breaks.
pub open spec fn sample_ge(a: JobModel, b: JobModel) -> bool {
    if a.updated_at != b.updated_at {
        a.updated_at > b.updated_at
    } else if a.inserted_at != b.inserted_at {
        a.inserted_at > b.inserted_at
    } else if opt_rank(a.locked_at) != opt_rank(b.locked_at) {
        opt_rank(a.locked_at) > opt_rank(b.locked_at)
    } else if opt_rank(a.completed_at) != opt_rank(b.completed_at) {
        opt_rank(a.completed_at) > opt_rank(b.completed_at)
    } else {
        opt_rank(a.failed_at) >= opt_rank(b.failed_at)
    }
}

/// The listing `r` holds the first `limit` rows of some descending
/// arrangement `all` of every message in the store.
pub open spec fn sample_post(s: StoreModel, limit: int, r: Seq<JobModel>) -> bool {
    exists|all: Seq<JobModel>|
        {
            &&& #[trigger] all.to_multiset() == s.messages.map_values(
                |m: MessageModel| job_of(s, m),
            ).to_multiset()
            &&& forall|i: int, j: int| 0 <= i < j < all.len() ==> sample_ge(#[trigger] all[i], #[trigger] all[j])
            &&& r == all.take(if limit <= all.len() { limit } else { all.len() as int })
        }
}

/// The dashboard order is total.
pub proof fn lemma_sample_ge_total(a: JobModel, b: JobModel)
    ensures
        sample_ge(a, b) || sample_ge(b, a),
{
}

/// The dashboard order is transitive.
pub proof fn lemma_sample_ge_trans(a: JobModel, b: JobModel, c: JobModel)
    requires
        sample_ge(a, b),
        sample_ge(b, c),
    ensures
        sample_ge(a, c),
{
}

} // verus!
