use hq::repo::Repo;
use hq::queue::UpdateQueueRequest;
use hq::AppError;

const T0: u64 = 1_000;

fn repo_with_queue(max_attempts: i64, visibility_timeout_seconds: i64) -> Repo {
    let mut repo = Repo::new();
    repo.create_queue("some_queue", max_attempts, visibility_timeout_seconds, T0).unwrap();
    repo
}

#[test]
fn enqueues_message() {
    let mut repo = repo_with_queue(5, 30);

    repo.enqueue_message("some_queue", "{\"foo\":\"bar\"}", T0 + 1).unwrap();
}

#[test]
fn receive_no_message() {
    let mut repo = repo_with_queue(5, 30);

    let message_response = repo.receive_message("some_queue", T0 + 1);

    assert!(message_response.is_none())
}

#[test]
fn receive_with_message() {
    let mut repo = repo_with_queue(5, 30);

    repo.enqueue_message("some_queue", "{\"foo\":\"bar\"}", T0 + 1).unwrap();

    let message_response = repo.receive_message("some_queue", T0 + 2).unwrap();

    assert_eq!(message_response.args, "{\"foo\":\"bar\"}");
    assert_eq!(message_response.queue, "some_queue");
    assert_eq!(message_response.attempts, 1);
}

#[test]
fn completes_uncompleted_message() {
    let mut repo = repo_with_queue(5, 30);

    repo.enqueue_message("some_queue", "{\"foo\":\"bar\"}", T0 + 1).unwrap();

    let message_response = repo.receive_message("some_queue", T0 + 2).unwrap();

    repo.complete_message(message_response.id, T0 + 3);

    let message_response = repo.receive_message("some_queue", T0 + 4);

    assert!(message_response.is_none());
}

#[test]
fn fails_message() {
    let mut repo = repo_with_queue(5, 30);

    repo.enqueue_message("some_queue", "{\"foo\":\"bar\"}", T0 + 1).unwrap();

    let message_response = repo.receive_message("some_queue", T0 + 2).unwrap();

    repo.fail_message(message_response.id, T0 + 3);

    let message_response = repo.receive_message("some_queue", T0 + 4);

    assert!(message_response.is_none());
}

#[test]
fn visibility_timeout_unlocks_locked_message_and_respects_max_attempts() {
    let mut repo = repo_with_queue(2, 1);

    repo.enqueue_message("some_queue", "{\"foo\":\"bar\"}", T0).unwrap();

    let message_response1 = repo.receive_message("some_queue", T0 + 10).unwrap();

    // three seconds pass; the sweeper runs
    repo.unlock_messages_locked_longer_than_timeout(T0 + 3_010);

    let message_response2 = repo.receive_message("some_queue", T0 + 3_020).unwrap();

    repo.unlock_messages_locked_longer_than_timeout(T0 + 6_030);

    let message_response3 = repo.receive_message("some_queue", T0 + 6_040);

    assert_eq!(message_response1.id, message_response2.id);
    assert_eq!(message_response1.attempts, 1);
    assert_eq!(message_response2.attempts, 2);
    assert!(message_response3.is_none());
}

#[test]
fn enqueue_rejects_malformed_json() {
    let mut repo = repo_with_queue(5, 30);

    assert_eq!(
        repo.enqueue_message("some_queue", "{\"foo\":", T0 + 1),
        Err(AppError::BadInput)
    );
    assert!(repo.receive_message("some_queue", T0 + 2).is_none());
}

#[test]
fn enqueue_accepts_well_formed_json() {
    let mut repo = repo_with_queue(5, 30);

    assert!(repo.enqueue_message("some_queue", "[1, 2, 3]", T0 + 1).is_ok());
    assert!(repo.enqueue_message("some_queue", "null", T0 + 2).is_ok());
}

#[test]
fn enqueue_to_missing_queue_errors() {
    let mut repo = Repo::new();

    assert_eq!(repo.enqueue_message("nowhere", "{}", T0), Err(AppError::NotFound));
}

#[test]
fn enqueue_with_id_rejects_duplicate_id() {
    let mut repo = repo_with_queue(5, 30);

    repo.enqueue_message_with_id("some_queue", "{}", 42, T0 + 1).unwrap();

    assert_eq!(
        repo.enqueue_message_with_id("some_queue", "{}", 42, T0 + 2),
        Err(AppError::Conflict)
    );
}

#[test]
fn two_receives_deliver_distinct_messages() {
    let mut repo = repo_with_queue(5, 30);

    let a = repo.enqueue_message("some_queue", "\"first\"", T0 + 1).unwrap();
    let b = repo.enqueue_message("some_queue", "\"second\"", T0 + 2).unwrap();

    let m1 = repo.receive_message("some_queue", T0 + 3).unwrap();
    let m2 = repo.receive_message("some_queue", T0 + 4).unwrap();

    assert_ne!(m1.id, m2.id);
    // oldest by updated_at first
    assert_eq!(m1.id, a);
    assert_eq!(m2.id, b);
}

#[test]
fn complete_is_idempotent() {
    let mut repo = repo_with_queue(5, 30);

    repo.enqueue_message("some_queue", "{\"foo\":\"bar\"}", T0 + 1).unwrap();
    let m = repo.receive_message("some_queue", T0 + 2).unwrap();

    repo.complete_message(m.id, T0 + 3);
    repo.complete_message(m.id, T0 + 4);
    repo.fail_message(m.id, T0 + 5);

    // the message stays completed: it is neither redelivered nor failed
    assert!(repo.receive_message("some_queue", T0 + 6).is_none());
    let rows = repo.messages_sample(10);
    assert_eq!(rows.len(), 1);
    assert_eq!(rows[0].completed_at, Some(T0 + 3));
    assert_eq!(rows[0].failed_at, None);
    assert_eq!(rows[0].locked_at, None);
}

#[test]
fn fail_is_idempotent() {
    let mut repo = repo_with_queue(5, 30);

    repo.enqueue_message("some_queue", "{\"foo\":\"bar\"}", T0 + 1).unwrap();
    let m = repo.receive_message("some_queue", T0 + 2).unwrap();

    repo.fail_message(m.id, T0 + 3);
    repo.fail_message(m.id, T0 + 4);
    repo.complete_message(m.id, T0 + 5);

    let rows = repo.messages_sample(10);
    assert_eq!(rows.len(), 1);
    assert_eq!(rows[0].failed_at, Some(T0 + 3));
    assert_eq!(rows[0].completed_at, None);
}

#[test]
fn complete_on_ready_message_is_noop() {
    let mut repo = repo_with_queue(5, 30);

    let id = repo.enqueue_message("some_queue", "{\"foo\":\"bar\"}", T0 + 1).unwrap();

    // never received, so not leased: complete must be ignored
    repo.complete_message(id, T0 + 2);

    let m = repo.receive_message("some_queue", T0 + 3).unwrap();
    assert_eq!(m.id, id);
    assert_eq!(m.attempts, 1);
}

#[test]
fn sweep_ignores_terminal_and_fresh_leases() {
    let mut repo = repo_with_queue(5, 30);

    repo.enqueue_message("some_queue", "\"done\"", T0 + 1).unwrap();
    let done = repo.receive_message("some_queue", T0 + 2).unwrap();
    repo.complete_message(done.id, T0 + 3);

    repo.enqueue_message("some_queue", "\"held\"", T0 + 4).unwrap();
    let held = repo.receive_message("some_queue", T0 + 5).unwrap();

    // the lease of "held" (30 s) has not expired two seconds in
    repo.unlock_messages_locked_longer_than_timeout(T0 + 2_000);

    assert!(repo.receive_message("some_queue", T0 + 2_001).is_none());
    let rows = repo.messages_sample(10);
    assert_eq!(rows.len(), 2);
    for row in rows {
        if row.id == done.id {
            assert_eq!(row.completed_at, Some(T0 + 3));
        } else {
            assert_eq!(row.id, held.id);
            assert_eq!(row.locked_at, Some(T0 + 5));
        }
    }
}

#[test]
fn exhausted_expired_lease_is_retired_to_failed() {
    let mut repo = repo_with_queue(3, 1);

    repo.enqueue_message("some_queue", "\"stubborn\"", T0).unwrap();

    let m1 = repo.receive_message("some_queue", T0 + 10).unwrap();
    repo.unlock_messages_locked_longer_than_timeout(T0 + 2_000);
    let m2 = repo.receive_message("some_queue", T0 + 2_010).unwrap();
    repo.unlock_messages_locked_longer_than_timeout(T0 + 4_000);
    let m3 = repo.receive_message("some_queue", T0 + 4_010).unwrap();
    assert_eq!(m1.attempts, 1);
    assert_eq!(m2.attempts, 2);
    assert_eq!(m3.attempts, 3);

    // the attempt budget shrinks while the third lease is held
    repo.update_queue(
        "some_queue",
        &UpdateQueueRequest { max_attempts: Some(2), visibility_timeout_seconds: None },
        T0 + 4_020,
    )
    .unwrap();

    // the lease expires with attempts (3) above max_attempts (2): retire
    repo.unlock_messages_locked_longer_than_timeout(T0 + 6_000);

    assert!(repo.receive_message("some_queue", T0 + 6_010).is_none());
    let rows = repo.messages_sample(10);
    assert_eq!(rows.len(), 1);
    assert_eq!(rows[0].failed_at, Some(T0 + 6_000));
    assert_eq!(rows[0].locked_at, None);
    assert_eq!(rows[0].attempts, 3);
}

#[test]
fn delete_cascade_removes_messages() {
    let mut repo = Repo::new();

    repo.create_queue("q", 5, 30, T0).unwrap();
    repo.enqueue_message("q", "\"one\"", T0 + 1).unwrap();
    repo.enqueue_message("q", "\"two\"", T0 + 2).unwrap();
    repo.enqueue_message("q", "\"three\"", T0 + 3).unwrap();

    repo.delete_queue("q");

    assert!(repo.get_queues().is_empty());
    assert!(repo.messages_sample(10).is_empty());

    repo.create_queue("q", 5, 30, T0 + 4).unwrap();

    assert!(repo.receive_message("q", T0 + 5).is_none());
}

#[test]
fn delete_cascade_spares_other_queues() {
    let mut repo = Repo::new();

    repo.create_queue("keep", 5, 30, T0).unwrap();
    repo.create_queue("drop", 5, 30, T0 + 1).unwrap();
    let kept = repo.enqueue_message("keep", "\"kept\"", T0 + 2).unwrap();
    repo.enqueue_message("drop", "\"dropped\"", T0 + 3).unwrap();

    repo.delete_queue("drop");

    let rows = repo.messages_sample(10);
    assert_eq!(rows.len(), 1);
    assert_eq!(rows[0].id, kept);
    assert_eq!(rows[0].queue_name, "keep");
}

#[test]
fn redelivered_message_moves_to_back_of_queue() {
    let mut repo = repo_with_queue(5, 1);

    let first = repo.enqueue_message("some_queue", "\"first\"", T0).unwrap();
    let second = repo.enqueue_message("some_queue", "\"second\"", T0 + 1).unwrap();

    // deliver "first", let its lease expire, and sweep: its updated_at is
    // now newer than "second"'s, so "second" is delivered next
    let m1 = repo.receive_message("some_queue", T0 + 2).unwrap();
    assert_eq!(m1.id, first);

    repo.unlock_messages_locked_longer_than_timeout(T0 + 2_000);

    let m2 = repo.receive_message("some_queue", T0 + 2_010).unwrap();
    assert_eq!(m2.id, second);

    let m3 = repo.receive_message("some_queue", T0 + 2_020).unwrap();
    assert_eq!(m3.id, first);
    assert_eq!(m3.attempts, 2);
}

#[test]
fn messages_sample_orders_by_recency() {
    let mut repo = Repo::new();

    repo.create_queue("q", 5, 30, T0).unwrap();
    let a = repo.enqueue_message("q", "\"a\"", T0 + 1).unwrap();
    let b = repo.enqueue_message("q", "\"b\"", T0 + 2).unwrap();
    let c = repo.enqueue_message("q", "\"c\"", T0 + 3).unwrap();

    let rows = repo.messages_sample(10);
    assert_eq!(rows.len(), 3);
    assert_eq!(rows[0].id, c);
    assert_eq!(rows[1].id, b);
    assert_eq!(rows[2].id, a);
    assert_eq!(rows[0].args, "\"c\"");
    assert_eq!(rows[0].queue_name, "q");
    assert_eq!(rows[0].inserted_at, T0 + 3);

    let top = repo.messages_sample(2);
    assert_eq!(top.len(), 2);
    assert_eq!(top[0].id, c);
    assert_eq!(top[1].id, b);

    assert!(repo.messages_sample(0).is_empty());
}

#[test]
fn attempts_never_decrease() {
    let mut repo = repo_with_queue(5, 1);

    repo.enqueue_message("some_queue", "\"x\"", T0).unwrap();

    let mut last: i64 = 0;
    for round in 0..3u64 {
        let now = T0 + round * 2_000 + 10;
        let m = repo.receive_message("some_queue", now).unwrap();
        assert!(m.attempts > last);
        last = m.attempts;
        repo.unlock_messages_locked_longer_than_timeout(now + 1_990);
    }
    assert_eq!(last, 3);
}

#[test]
fn delivery_never_exceeds_max_attempts() {
    let mut repo = repo_with_queue(2, 1);

    repo.enqueue_message("some_queue", "\"x\"", T0).unwrap();

    let mut deliveries: u32 = 0;
    for round in 0..5u64 {
        let now = T0 + round * 2_000 + 10;
        if let Some(m) = repo.receive_message("some_queue", now) {
            assert!(m.attempts <= 2);
            deliveries += 1;
        }
        repo.unlock_messages_locked_longer_than_timeout(now + 1_990);
    }
    assert_eq!(deliveries, 2);
}
