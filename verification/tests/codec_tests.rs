use thermite::codec::deserialize_task;
use thermite::codec::serialize_task;
use thermite::errors::TaskQueueError;
use thermite::task::BaseTask;
use thermite::task::BaseTaskPayload;

fn sample_task() -> BaseTask {
    BaseTask {
        id: "1".to_string(),
        name: "Task 1".to_string(),
        description: "Task 1 description".to_string(),
        category: "non_periodic".to_string(),
        priority: "high".to_string(),
        task: "http://localhost:8080/task".to_string(),
        scheduled_at: 1628764800,
        cron_scheduled_at: "0 0 * * *".to_string(),
        args: None,
    }
}

fn assert_task_eq(a: &BaseTask, b: &BaseTask) {
    assert_eq!(a.id, b.id);
    assert_eq!(a.name, b.name);
    assert_eq!(a.description, b.description);
    assert_eq!(a.category, b.category);
    assert_eq!(a.priority, b.priority);
    assert_eq!(a.task, b.task);
    assert_eq!(a.scheduled_at, b.scheduled_at);
    assert_eq!(a.cron_scheduled_at, b.cron_scheduled_at);
    assert_eq!(a.args, b.args);
}

#[test]
fn serialize_exact_form() {
    let t = sample_task();
    let s = serialize_task(&t);
    let expected = "{\"id\":\"1\",\"name\":\"Task 1\",\"description\":\"Task 1 description\",\"category\":\"non_periodic\",\"priority\":\"high\",\"task\":\"http://localhost:8080/task\",\"scheduled_at\":1628764800,\"cron_scheduled_at\":\"0 0 * * *\",\"args\":null}";
    assert_eq!(s, expected);
}

#[test]
fn serialize_escapes_quotes_and_backslashes() {
    let t = BaseTask {
        id: "a\"b\\c".to_string(),
        ..Default::default()
    };
    let s = serialize_task(&t);
    assert!(s.starts_with("{\"id\":\"a\\\"b\\\\c\""));
}

#[test]
fn round_trip_plain() {
    let t = sample_task();
    let back = deserialize_task(&serialize_task(&t)).expect("round trip");
    assert_task_eq(&t, &back);
}

#[test]
fn round_trip_with_escapes() {
    let t = BaseTask {
        id: "we\"ird\\id".to_string(),
        name: "quo\"te".to_string(),
        category: "periodic".to_string(),
        cron_scheduled_at: "0 * * * *".to_string(),
        scheduled_at: 42,
        ..Default::default()
    };
    let back = deserialize_task(&serialize_task(&t)).expect("round trip");
    assert_task_eq(&t, &back);
}

#[test]
fn round_trip_with_args() {
    let t = BaseTask {
        id: "A".to_string(),
        args: Some(vec![
            ("key".to_string(), "value".to_string()),
            ("other\"key".to_string(), "second".to_string()),
        ]),
        ..Default::default()
    };
    let back = deserialize_task(&serialize_task(&t)).expect("round trip");
    assert_task_eq(&t, &back);
}

#[test]
fn serialize_args_exact_form() {
    let t = BaseTask {
        args: Some(vec![("k".to_string(), "v".to_string())]),
        ..Default::default()
    };
    let s = serialize_task(&t);
    assert!(s.ends_with("\"args\":{\"k\":\"v\"}}"));
    let none = BaseTask { ..Default::default() };
    assert!(serialize_task(&none).ends_with("\"args\":null}"));
}

#[test]
fn round_trip_with_empty_args() {
    let t = BaseTask {
        args: Some(vec![]),
        ..Default::default()
    };
    let back = deserialize_task(&serialize_task(&t)).expect("round trip");
    assert_task_eq(&t, &back);
}

#[test]
fn round_trip_max_schedule() {
    let t = BaseTask {
        scheduled_at: u64::MAX,
        ..Default::default()
    };
    let back = deserialize_task(&serialize_task(&t)).expect("round trip");
    assert_eq!(back.scheduled_at, u64::MAX);
}

#[test]
fn deserialize_rejects_garbage() {
    let r = deserialize_task("definitely not a task");
    assert!(matches!(r, Err(TaskQueueError::Serde(_))));
}

#[test]
fn deserialize_rejects_trailing_input() {
    let mut s = serialize_task(&sample_task());
    s.push('x');
    assert!(matches!(deserialize_task(&s), Err(TaskQueueError::Serde(_))));
}

#[test]
fn deserialize_rejects_overflowing_schedule() {
    let s = "{\"id\":\"\",\"name\":\"\",\"description\":\"\",\"category\":\"\",\"priority\":\"\",\"task\":\"\",\"scheduled_at\":18446744073709551616,\"cron_scheduled_at\":\"\",\"args\":null}";
    assert!(matches!(deserialize_task(s), Err(TaskQueueError::Serde(_))));
}

#[test]
fn payload_converts_to_task() {
    let p = BaseTaskPayload {
        id: "7".to_string(),
        name: "n".to_string(),
        description: "d".to_string(),
        category: "other".to_string(),
        priority: "low".to_string(),
        task: "http://t/x".to_string(),
        scheduled_at: 9,
        cron_scheduled_at: "".to_string(),
        args: None,
    };
    let t = BaseTask::from(p);
    assert_eq!(t.id, "7");
    assert_eq!(t.scheduled_at, 9);
    assert_eq!(t.category, "other");
}
