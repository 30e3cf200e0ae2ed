use hq::queue::UpdateQueueRequest;
use hq::repo::Repo;
use hq::AppError;

const T0: u64 = 1_000;

#[test]
fn creates_queue() {
    let mut repo = Repo::new();
    repo.create_queue("some_queue", 5, 30, T0).unwrap();
}

#[test]
fn lists_queues_with_queues() {
    let mut repo = Repo::new();
    let queue_name = "some_queue";
    let max_attempts: i64 = 5;

    repo.create_queue(queue_name, max_attempts, 30, T0).unwrap();

    let queues = repo.get_queues();

    assert_eq!(queues[0].name, queue_name);
    assert_eq!(queues[0].max_attempts, max_attempts)
}

#[test]
fn lists_queues_no_queues() {
    let repo = Repo::new();

    let queues = repo.get_queues();

    assert!(queues.is_empty())
}

#[test]
fn get_queue_none() {
    let repo = Repo::new();

    let q = repo.get_queue("some_queue");

    assert!(q.is_none())
}

#[test]
fn get_queue_some() {
    let mut repo = Repo::new();

    repo.create_queue("some_queue", 5, 30, T0).unwrap();

    let q = repo.get_queue("some_queue").unwrap();

    assert_eq!(q.name, "some_queue");
    assert_eq!(q.max_attempts, 5);
    assert_eq!(q.visibility_timeout_seconds, 30);
}

#[test]
fn updates_queue_max_attempts() {
    let mut repo = Repo::new();

    repo.create_queue("some_queue", 5, 30, T0).unwrap();

    let q = repo.get_queue("some_queue").unwrap();
    assert_eq!(q.name, "some_queue");
    assert_eq!(q.max_attempts, 5);
    assert_eq!(q.visibility_timeout_seconds, 30);

    repo.update_queue(
        "some_queue",
        &UpdateQueueRequest { max_attempts: Some(6), visibility_timeout_seconds: None },
        T0 + 1,
    )
    .unwrap();

    let q = repo.get_queue("some_queue").unwrap();
    assert_eq!(q.name, "some_queue");
    assert_eq!(q.max_attempts, 6);
    assert_eq!(q.visibility_timeout_seconds, 30);
}

#[test]
fn updates_queue_max_visibility_timeout() {
    let mut repo = Repo::new();

    repo.create_queue("some_queue", 5, 30, T0).unwrap();

    let q = repo.get_queue("some_queue").unwrap();
    assert_eq!(q.name, "some_queue");
    assert_eq!(q.max_attempts, 5);
    assert_eq!(q.visibility_timeout_seconds, 30);

    repo.update_queue(
        "some_queue",
        &UpdateQueueRequest { max_attempts: None, visibility_timeout_seconds: Some(10) },
        T0 + 1,
    )
    .unwrap();

    let q = repo.get_queue("some_queue").unwrap();
    assert_eq!(q.name, "some_queue");
    assert_eq!(q.max_attempts, 5);
    assert_eq!(q.visibility_timeout_seconds, 10);
}

#[test]
fn updates_queue_none() {
    let mut repo = Repo::new();

    repo.create_queue("some_queue", 5, 30, T0).unwrap();

    let q = repo.get_queue("some_queue").unwrap();
    assert_eq!(q.name, "some_queue");
    assert_eq!(q.max_attempts, 5);
    assert_eq!(q.visibility_timeout_seconds, 30);

    repo.update_queue(
        "some_queue",
        &UpdateQueueRequest { max_attempts: None, visibility_timeout_seconds: None },
        T0 + 1,
    )
    .unwrap();

    let q = repo.get_queue("some_queue").unwrap();
    assert_eq!(q.name, "some_queue");
    assert_eq!(q.max_attempts, 5);
    assert_eq!(q.visibility_timeout_seconds, 30);
}

#[test]
fn delete_queue_none() {
    let mut repo = Repo::new();

    repo.delete_queue("some_queue");

    assert!(repo.get_queues().is_empty())
}

#[test]
fn delete_queue_some() {
    let mut repo = Repo::new();

    repo.create_queue("some_queue", 5, 30, T0).unwrap();

    assert!(!repo.get_queues().is_empty());

    repo.delete_queue("some_queue");

    assert!(repo.get_queues().is_empty())
}

#[test]
fn duplicate_create_conflicts() {
    let mut repo = Repo::new();

    repo.create_queue("q", 5, 30, T0).unwrap();

    assert_eq!(repo.create_queue("q", 5, 30, T0 + 1), Err(AppError::Conflict));
}

#[test]
fn create_rejects_bad_max_attempts() {
    let mut repo = Repo::new();

    assert_eq!(repo.create_queue("q", 0, 30, T0), Err(AppError::Validation));
    assert!(repo.get_queue("q").is_none());
}

#[test]
fn create_rejects_bad_visibility_timeout() {
    let mut repo = Repo::new();

    assert_eq!(repo.create_queue("q", 5, 0, T0), Err(AppError::Validation));
    assert!(repo.get_queue("q").is_none());
}

#[test]
fn update_rejects_bad_values() {
    let mut repo = Repo::new();

    repo.create_queue("q", 5, 30, T0).unwrap();

    let r = repo.update_queue(
        "q",
        &UpdateQueueRequest { max_attempts: Some(0), visibility_timeout_seconds: None },
        T0 + 1,
    );
    assert_eq!(r, Err(AppError::Validation));

    let r = repo.update_queue(
        "q",
        &UpdateQueueRequest { max_attempts: None, visibility_timeout_seconds: Some(-3) },
        T0 + 2,
    );
    assert_eq!(r, Err(AppError::Validation));

    let q = repo.get_queue("q").unwrap();
    assert_eq!(q.max_attempts, 5);
    assert_eq!(q.visibility_timeout_seconds, 30);
}

#[test]
fn update_missing_queue_is_noop() {
    let mut repo = Repo::new();

    let r = repo.update_queue(
        "ghost_queue",
        &UpdateQueueRequest { max_attempts: Some(2), visibility_timeout_seconds: None },
        T0,
    );
    assert_eq!(r, Ok(()));
    assert!(repo.get_queue("ghost_queue").is_none());
}

#[test]
fn list_is_sorted_by_name() {
    let mut repo = Repo::new();

    repo.create_queue("bravo", 1, 1, T0).unwrap();
    repo.create_queue("alpha", 2, 1, T0 + 1).unwrap();
    repo.create_queue("charlie", 3, 1, T0 + 2).unwrap();

    let names: Vec<String> = repo.get_queues().into_iter().map(|q| q.name).collect();
    assert_eq!(names, vec!["alpha", "bravo", "charlie"]);
}

#[test]
fn create_with_id_rejects_duplicate_id() {
    let mut repo = Repo::new();

    repo.create_queue_with_id("first", 5, 30, 7, T0).unwrap();

    assert_eq!(repo.create_queue_with_id("second", 5, 30, 7, T0 + 1), Err(AppError::Conflict));
    assert!(repo.get_queue("second").is_none());
}

#[test]
fn update_queue_request_is_some() {
    assert!(!UpdateQueueRequest { max_attempts: None, visibility_timeout_seconds: None }.is_some());
    assert!(UpdateQueueRequest { max_attempts: Some(1), visibility_timeout_seconds: None }.is_some());
    assert!(UpdateQueueRequest { max_attempts: None, visibility_timeout_seconds: Some(1) }.is_some());
}
