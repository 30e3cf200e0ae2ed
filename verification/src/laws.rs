use vstd::prelude::*;
use crate::json::json_well_formed;
use crate::model::{
    complete_post, completed_message, delete_queue_post, eligible, enqueue_post, fail_post,
    failed_message, has_message_with_id, has_queue_named, is_completed, is_failed, is_leased,
    is_ready, is_terminal, keeps_other_queues, lease_expired, leased_message, leased_with_id,
    lemma_wf_push_message, message_ok, new_message, queue_named,
    queue_with_id, receive_picks, receive_post, receive_post_at, received_from, sweep_one,
    sweep_post, wf, MessageModel, ReceivedModel, StoreModel,
};
use crate::AppError;

verus! {

// ---------------------------------------------------------------------------
// The laws of the lifecycle engine. Each is a proof over the transition
// relations that the store's methods ensure, so it holds of every run of
// the executable code. Queue creation and update never touch message rows,
// and deletion removes whole rows without editing them; their relations say
// so directly, so the per-message laws below concern the transitions that
// can write to a message.
// ---------------------------------------------------------------------------

/// Every message of a well-formed store is in exactly one of the four
/// lifecycle states.
pub proof fn lemma_state_exclusivity(s: StoreModel, i: int)
    requires
        wf(s),
        0 <= i < s.messages.len(),
    ensures
        is_ready(s.messages[i]) || is_leased(s.messages[i]) || is_completed(s.messages[i])
            || is_failed(s.messages[i]),
        !(is_ready(s.messages[i]) && is_leased(s.messages[i])),
        !(is_ready(s.messages[i]) && is_completed(s.messages[i])),
        !(is_ready(s.messages[i]) && is_failed(s.messages[i])),
        !(is_leased(s.messages[i]) && is_completed(s.messages[i])),
        !(is_leased(s.messages[i]) && is_failed(s.messages[i])),
        !(is_completed(s.messages[i]) && is_failed(s.messages[i])),
{
    assert(message_ok(s.messages[i]));
}

// ---------------------------------------------------------------------------
// Witness extraction helpers.
// ---------------------------------------------------------------------------

/// The queue and message rows behind a successful receive.
proof fn receive_witnesses(
    pre: StoreModel,
    post: StoreModel,
    name: Seq<char>,
    now: u64,
    out: Option<ReceivedModel>,
) -> (w: (int, int))
    requires
        receive_post(pre, post, name, now, out),
        out is Some,
    ensures
        queue_named(pre, name, w.0),
        receive_picks(pre, w.0, w.1),
        post.queues == pre.queues,
        post.messages == pre.messages.update(w.1, leased_message(pre.messages[w.1], now)),
        out == Some(received_from(pre.messages[w.1], name, now)),
{
    assert(has_queue_named(pre, name));
    let qi = choose|qi: int|
        #[trigger] queue_named(pre, name, qi) && receive_post_at(pre, post, qi, name, now, out);
    assert(exists|mi: int| eligible(pre, qi, mi));
    let mi = choose|mi: int|
        {
            &&& #[trigger] receive_picks(pre, qi, mi)
            &&& post.queues == pre.queues
            &&& post.messages == pre.messages.update(mi, leased_message(pre.messages[mi], now))
            &&& out == Some(received_from(pre.messages[mi], name, now))
        };
    (qi, mi)
}

/// The message row behind an effective complete.
proof fn complete_witness(pre: StoreModel, post: StoreModel, id: u128, now: u64) -> (mi: int)
    requires
        complete_post(pre, post, id, now),
        exists|mi: int| leased_with_id(pre, mi, id),
    ensures
        leased_with_id(pre, mi, id),
        post.queues == pre.queues,
        post.messages == pre.messages.update(mi, completed_message(pre.messages[mi], now)),
{
    choose|mi: int|
        {
            &&& #[trigger] leased_with_id(pre, mi, id)
            &&& post.queues == pre.queues
            &&& post.messages == pre.messages.update(mi, completed_message(pre.messages[mi], now))
        }
}

/// The message row behind an effective fail.
proof fn fail_witness(pre: StoreModel, post: StoreModel, id: u128, now: u64) -> (mi: int)
    requires
        fail_post(pre, post, id, now),
        exists|mi: int| leased_with_id(pre, mi, id),
    ensures
        leased_with_id(pre, mi, id),
        post.queues == pre.queues,
        post.messages == pre.messages.update(mi, failed_message(pre.messages[mi], now)),
{
    choose|mi: int|
        {
            &&& #[trigger] leased_with_id(pre, mi, id)
            &&& post.queues == pre.queues
            &&& post.messages == pre.messages.update(mi, failed_message(pre.messages[mi], now))
        }
}

// ---------------------------------------------------------------------------
// Terminal absorption: once a message is completed or failed, none of the
// message transitions writes to it again.
// ---------------------------------------------------------------------------

/// Complete never touches a terminal message.
pub proof fn lemma_terminal_absorption_complete(
    pre: StoreModel,
    post: StoreModel,
    id: u128,
    now: u64,
    j: int,
)
    requires
        complete_post(pre, post, id, now),
        0 <= j < pre.messages.len(),
        is_terminal(pre.messages[j]),
    ensures
        post.messages.len() == pre.messages.len(),
        post.messages[j] == pre.messages[j],
{
    if exists|mi: int| leased_with_id(pre, mi, id) {
        let mi = complete_witness(pre, post, id, now);
        assert(mi != j);
    }
}

/// Fail never touches a terminal message.
pub proof fn lemma_terminal_absorption_fail(
    pre: StoreModel,
    post: StoreModel,
    id: u128,
    now: u64,
    j: int,
)
    requires
        fail_post(pre, post, id, now),
        0 <= j < pre.messages.len(),
        is_terminal(pre.messages[j]),
    ensures
        post.messages.len() == pre.messages.len(),
        post.messages[j] == pre.messages[j],
{
    if exists|mi: int| leased_with_id(pre, mi, id) {
        let mi = fail_witness(pre, post, id, now);
        assert(mi != j);
    }
}

/// Receive never delivers nor touches a terminal message.
pub proof fn lemma_terminal_absorption_receive(
    pre: StoreModel,
    post: StoreModel,
    name: Seq<char>,
    now: u64,
    out: Option<ReceivedModel>,
    j: int,
)
    requires
        wf(pre),
        receive_post(pre, post, name, now, out),
        0 <= j < pre.messages.len(),
        is_terminal(pre.messages[j]),
    ensures
        post.messages.len() == pre.messages.len(),
        post.messages[j] == pre.messages[j],
        out matches Some(m) ==> m.id != pre.messages[j].id,
{
    if out is Some {
        let (qi, mi) = receive_witnesses(pre, post, name, now, out);
        assert(is_ready(pre.messages[mi]));
        assert(mi != j);
    }
}

/// The sweep never touches a terminal message.
pub proof fn lemma_terminal_absorption_sweep(
    pre: StoreModel,
    post: StoreModel,
    now: u64,
    j: int,
)
    requires
        sweep_post(pre, post, now),
        0 <= j < pre.messages.len(),
        is_terminal(pre.messages[j]),
    ensures
        post.messages.len() == pre.messages.len(),
        post.messages[j] == pre.messages[j],
{
    assert(post.messages[j] == sweep_one(pre, pre.messages[j], now));
    assert(!is_leased(pre.messages[j]));
}

/// Enqueue leaves every existing message untouched.
pub proof fn lemma_terminal_absorption_enqueue(
    pre: StoreModel,
    post: StoreModel,
    name: Seq<char>,
    body: Seq<char>,
    id: u128,
    now: u64,
    out: Result<u128, AppError>,
    j: int,
)
    requires
        enqueue_post(pre, post, name, body, id, now, out),
        0 <= j < pre.messages.len(),
    ensures
        post.messages.len() >= pre.messages.len(),
        post.messages[j] == pre.messages[j],
{
    if out == Ok::<u128, AppError>(id) && json_well_formed(body) && has_queue_named(pre, name)
        && !has_message_with_id(pre, id) {
        let qi = choose|qi: int|
            #[trigger] queue_named(pre, name, qi) && post.messages == pre.messages.push(
                new_message(id, pre.queues[qi].id, body, now),
            );
        assert(post.messages[j] == pre.messages[j]);
    }
}

// ---------------------------------------------------------------------------
// At-most-one lease: a message delivered by one receive is leased, and a
// leased message is never delivered again before it leaves the leased
// state, so two back-to-back receives never hand out the same message.
// ---------------------------------------------------------------------------

pub proof fn lemma_at_most_one_lease(
    s1: StoreModel,
    s2: StoreModel,
    s3: StoreModel,
    name: Seq<char>,
    t1: u64,
    t2: u64,
    m1: ReceivedModel,
    m2: ReceivedModel,
)
    requires
        wf(s1),
        receive_post(s1, s2, name, t1, Some(m1)),
        receive_post(s2, s3, name, t2, Some(m2)),
    ensures
        m1.id != m2.id,
{
    let (q1, i1) = receive_witnesses(s1, s2, name, t1, Some(m1));
    let (q2, i2) = receive_witnesses(s2, s3, name, t2, Some(m2));
    assert(is_leased(s2.messages[i1]));
    assert(is_ready(s2.messages[i2]));
    assert(i1 != i2);
    assert(s2.messages[i2] == s1.messages[i2]);
    assert(m1.id == s1.messages[i1].id);
    assert(m2.id == s1.messages[i2].id);
}

// ---------------------------------------------------------------------------
// Monotonic attempts: no transition ever lowers a message's attempt count.
// ---------------------------------------------------------------------------

/// Receive only raises the delivered message's attempt count.
pub proof fn lemma_attempts_monotonic_receive(
    pre: StoreModel,
    post: StoreModel,
    name: Seq<char>,
    now: u64,
    out: Option<ReceivedModel>,
)
    requires
        wf(pre),
        receive_post(pre, post, name, now, out),
    ensures
        post.messages.len() == pre.messages.len(),
        forall|j: int|
            0 <= j < pre.messages.len() ==> (#[trigger] post.messages[j]).attempts
                >= pre.messages[j].attempts,
{
    if out is Some {
        let (qi, mi) = receive_witnesses(pre, post, name, now, out);
        assert(eligible(pre, qi, mi));
    }
}

/// The sweep never changes any attempt count.
pub proof fn lemma_attempts_monotonic_sweep(pre: StoreModel, post: StoreModel, now: u64)
    requires
        sweep_post(pre, post, now),
    ensures
        post.messages.len() == pre.messages.len(),
        forall|j: int|
            0 <= j < pre.messages.len() ==> (#[trigger] post.messages[j]).attempts
                == pre.messages[j].attempts,
{
    assert(forall|j: int|
        0 <= j < pre.messages.len() ==> #[trigger] post.messages[j] == sweep_one(
            pre,
            pre.messages[j],
            now,
        ));
}

/// Complete never changes any attempt count.
pub proof fn lemma_attempts_monotonic_complete(pre: StoreModel, post: StoreModel, id: u128, now: u64)
    requires
        complete_post(pre, post, id, now),
    ensures
        post.messages.len() == pre.messages.len(),
        forall|j: int|
            0 <= j < pre.messages.len() ==> (#[trigger] post.messages[j]).attempts
                == pre.messages[j].attempts,
{
    if exists|mi: int| leased_with_id(pre, mi, id) {
        let mi = complete_witness(pre, post, id, now);
    }
}

/// Fail never changes any attempt count.
pub proof fn lemma_attempts_monotonic_fail(pre: StoreModel, post: StoreModel, id: u128, now: u64)
    requires
        fail_post(pre, post, id, now),
    ensures
        post.messages.len() == pre.messages.len(),
        forall|j: int|
            0 <= j < pre.messages.len() ==> (#[trigger] post.messages[j]).attempts
                == pre.messages[j].attempts,
{
    if exists|mi: int| leased_with_id(pre, mi, id) {
        let mi = fail_witness(pre, post, id, now);
    }
}

// ---------------------------------------------------------------------------
// Attempt ceiling: a delivery never exceeds the queue's budget.
// ---------------------------------------------------------------------------

pub proof fn lemma_attempt_ceiling(
    pre: StoreModel,
    post: StoreModel,
    name: Seq<char>,
    now: u64,
    m: ReceivedModel,
)
    requires
        wf(pre),
        receive_post(pre, post, name, now, Some(m)),
    ensures
        exists|qi: int| #[trigger] queue_named(pre, name, qi) && m.attempts <= pre.queues[qi].max_attempts,
{
    let (qi, mi) = receive_witnesses(pre, post, name, now, Some(m));
    assert(eligible(pre, qi, mi));
    assert(m.attempts <= pre.queues[qi].max_attempts);
}

// ---------------------------------------------------------------------------
// Expired leases settle: one sweep returns an expired lease to `ready`
// while attempts remain, and retires it to `failed` otherwise. (How soon
// the sweep runs after expiry is up to the caller's tick.)
// ---------------------------------------------------------------------------

pub proof fn lemma_expired_lease_settles(pre: StoreModel, post: StoreModel, now: u64, j: int)
    requires
        wf(pre),
        sweep_post(pre, post, now),
        0 <= j < pre.messages.len(),
        is_leased(pre.messages[j]),
        lease_expired(
            pre.messages[j],
            queue_with_id(pre, pre.messages[j].queue_id).visibility_timeout_seconds,
            now,
        ),
    ensures
        pre.messages[j].attempts <= queue_with_id(pre, pre.messages[j].queue_id).max_attempts
            ==> is_ready(post.messages[j]),
        pre.messages[j].attempts > queue_with_id(pre, pre.messages[j].queue_id).max_attempts
            ==> is_failed(post.messages[j]),
{
    assert(post.messages[j] == sweep_one(pre, pre.messages[j], now));
}

// ---------------------------------------------------------------------------
// Enqueue/receive round trip: enqueueing a well-formed payload into a queue
// with no other eligible message and then receiving returns that payload,
// on its first attempt.
// ---------------------------------------------------------------------------

pub proof fn lemma_enqueue_receive_round_trip(
    s1: StoreModel,
    s2: StoreModel,
    s3: StoreModel,
    name: Seq<char>,
    body: Seq<char>,
    id: u128,
    t1: u64,
    t2: u64,
    out: Option<ReceivedModel>,
)
    requires
        wf(s1),
        enqueue_post(s1, s2, name, body, id, t1, Ok(id)),
        receive_post(s2, s3, name, t2, out),
        forall|qi: int, mi: int| queue_named(s1, name, qi) ==> !(#[trigger] eligible(s1, qi, mi)),
    ensures
        out == Some(ReceivedModel { id, args: body, queue: name, attempts: 1 }),
{
    let n = s1.messages.len() as int;
    if !json_well_formed(body) {
        assert(false);
    }
    if !has_queue_named(s1, name) {
        assert(false);
    }
    if has_message_with_id(s1, id) {
        assert(false);
    }
    let eq = choose|qi: int|
        #[trigger] queue_named(s1, name, qi) && s2.messages == s1.messages.push(
            new_message(id, s1.queues[qi].id, body, t1),
        );
    let newm = new_message(id, s1.queues[eq].id, body, t1);
    lemma_wf_push_message(s1, s2, newm);
    assert(s2.queues[eq] == s1.queues[eq]);
    assert(queue_named(s2, name, eq));
    assert(has_queue_named(s2, name));
    let rq = choose|qi: int|
        #[trigger] queue_named(s2, name, qi) && receive_post_at(s2, s3, qi, name, t2, out);
    assert(s2.queues[rq] == s1.queues[rq]);
    assert(queue_named(s1, name, rq));
    assert(rq == eq);
    assert(s2.messages[n] == newm);
    assert(eligible(s2, rq, n));
    let mi = choose|mi: int|
        {
            &&& #[trigger] receive_picks(s2, rq, mi)
            &&& s3.queues == s2.queues
            &&& s3.messages == s2.messages.update(mi, leased_message(s2.messages[mi], t2))
            &&& out == Some(received_from(s2.messages[mi], name, t2))
        };
    assert(eligible(s2, rq, mi));
    if mi < n {
        assert(s2.messages[mi] == s1.messages[mi]);
        assert(eligible(s1, rq, mi));
        assert(false);
    }
    assert(mi == n);
    assert(out == Some(received_from(newm, name, t2)));
    assert(received_from(newm, name, t2) == ReceivedModel { id, args: body, queue: name, attempts: 1 });
}

// ---------------------------------------------------------------------------
// Idempotence of complete and fail: after the first effective call on an
// id, any further complete or fail on it changes nothing.
// ---------------------------------------------------------------------------

/// If the row holding `id` is not leased and ids are unique, no row is
/// leased with that id.
proof fn lemma_no_leased_with_id(s: StoreModel, mi: int, id: u128)
    requires
        0 <= mi < s.messages.len(),
        s.messages[mi].id == id,
        !is_leased(s.messages[mi]),
        forall|a: int, b: int|
            0 <= a < b < s.messages.len() ==> (#[trigger] s.messages[a]).id
                != (#[trigger] s.messages[b]).id,
    ensures
        !(exists|k: int| leased_with_id(s, k, id)),
{
    assert forall|k: int| !(#[trigger] leased_with_id(s, k, id)) by {
        if leased_with_id(s, k, id) {
            if k != mi {
                assert(s.messages[k].id == s.messages[mi].id);
                assert(false);
            }
        }
    }
}

/// After an effective complete, ids are still unique and the row is no
/// longer leased; shared by the four idempotence lemmas.
proof fn lemma_post_update_ids(pre: StoreModel, post: StoreModel, mi: int, m: MessageModel)
    requires
        wf(pre),
        0 <= mi < pre.messages.len(),
        post.messages == pre.messages.update(mi, m),
        m.id == pre.messages[mi].id,
    ensures
        forall|a: int, b: int|
            0 <= a < b < post.messages.len() ==> (#[trigger] post.messages[a]).id
                != (#[trigger] post.messages[b]).id,
{
    assert(forall|k: int|
        0 <= k < post.messages.len() ==> (#[trigger] post.messages[k]).id == pre.messages[k].id);
}

pub proof fn lemma_complete_idempotent(
    s1: StoreModel,
    s2: StoreModel,
    s3: StoreModel,
    id: u128,
    t1: u64,
    t2: u64,
)
    requires
        wf(s1),
        complete_post(s1, s2, id, t1),
        complete_post(s2, s3, id, t2),
    ensures
        s3 == s2,
{
    if exists|mi: int| leased_with_id(s1, mi, id) {
        let mi = complete_witness(s1, s2, id, t1);
        lemma_post_update_ids(s1, s2, mi, completed_message(s1.messages[mi], t1));
        lemma_no_leased_with_id(s2, mi, id);
    }
}

pub proof fn lemma_fail_idempotent(
    s1: StoreModel,
    s2: StoreModel,
    s3: StoreModel,
    id: u128,
    t1: u64,
    t2: u64,
)
    requires
        wf(s1),
        fail_post(s1, s2, id, t1),
        fail_post(s2, s3, id, t2),
    ensures
        s3 == s2,
{
    if exists|mi: int| leased_with_id(s1, mi, id) {
        let mi = fail_witness(s1, s2, id, t1);
        lemma_post_update_ids(s1, s2, mi, failed_message(s1.messages[mi], t1));
        lemma_no_leased_with_id(s2, mi, id);
    }
}

pub proof fn lemma_fail_after_complete_noop(
    s1: StoreModel,
    s2: StoreModel,
    s3: StoreModel,
    id: u128,
    t1: u64,
    t2: u64,
)
    requires
        wf(s1),
        complete_post(s1, s2, id, t1),
        fail_post(s2, s3, id, t2),
    ensures
        s3 == s2,
{
    if exists|mi: int| leased_with_id(s1, mi, id) {
        let mi = complete_witness(s1, s2, id, t1);
        lemma_post_update_ids(s1, s2, mi, completed_message(s1.messages[mi], t1));
        lemma_no_leased_with_id(s2, mi, id);
    }
}

pub proof fn lemma_complete_after_fail_noop(
    s1: StoreModel,
    s2: StoreModel,
    s3: StoreModel,
    id: u128,
    t1: u64,
    t2: u64,
)
    requires
        wf(s1),
        fail_post(s1, s2, id, t1),
        complete_post(s2, s3, id, t2),
    ensures
        s3 == s2,
{
    if exists|mi: int| leased_with_id(s1, mi, id) {
        let mi = fail_witness(s1, s2, id, t1);
        lemma_post_update_ids(s1, s2, mi, failed_message(s1.messages[mi], t1));
        lemma_no_leased_with_id(s2, mi, id);
    }
}

// ---------------------------------------------------------------------------
// Delete cascade: after deleting a queue, no queue of that name remains,
// and no surviving message belongs to it.
// ---------------------------------------------------------------------------

pub proof fn lemma_delete_cascade(pre: StoreModel, post: StoreModel, name: Seq<char>)
    requires
        wf(pre),
        has_queue_named(pre, name),
        delete_queue_post(pre, post, name),
    ensures
        !has_queue_named(post, name),
        forall|qi: int, k: int|
            #![trigger queue_named(pre, name, qi), post.messages[k]]
            queue_named(pre, name, qi) && 0 <= k < post.messages.len() ==> post.messages[k].queue_id
                != pre.queues[qi].id,
{
    let qi0 = choose|qi: int|
        {
            &&& #[trigger] queue_named(pre, name, qi)
            &&& post.queues == pre.queues.remove(qi)
            &&& post.messages == pre.messages.filter(keeps_other_queues(pre.queues[qi].id))
        };
    pre.queues.remove_ensures(qi0);
    assert forall|qi: int, k: int|
        #![trigger queue_named(pre, name, qi), post.messages[k]]
        queue_named(pre, name, qi) && 0 <= k < post.messages.len() implies post.messages[k].queue_id
        != pre.queues[qi].id by {
        assert(qi == qi0);
        Seq::lemma_filter_pred(pre.messages, keeps_other_queues(pre.queues[qi0].id), k);
    }
    assert forall|qk: int| !(#[trigger] queue_named(post, name, qk)) by {
        if queue_named(post, name, qk) {
            if qk < qi0 {
                assert(pre.queues[qk].name == name);
                assert(queue_named(pre, name, qk));
                assert(pre.queues[qk].name == pre.queues[qi0].name);
                assert(false);
            } else {
                assert(pre.queues[qk + 1].name == name);
                assert(pre.queues[qk + 1].name == pre.queues[qi0].name);
                assert(false);
            }
        }
    }
}

} // verus!
