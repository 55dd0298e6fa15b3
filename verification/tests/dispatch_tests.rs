use thermite::channel::HANDOFF_CAPACITY;
use thermite::channel::HandoffChannel;
use thermite::errors::TaskQueueError;
use thermite::queue::TimedQueue;
use thermite::queue::dequeue_task;
use thermite::queue::enqueue_task;
use thermite::schedule::cron_expr_accepted;
use thermite::schedule::next_firing_after;
use thermite::task::BaseTask;
use thermite::worker::DispatchOutcome;
use thermite::worker::PullerAction;
use thermite::worker::puller_step;
use thermite::worker::worker_step;

// 1628764800 is 2021-08-12T10:40:00Z.
const REF: i64 = 1628764800;

fn periodic(id: &str, cron: &str, at: u64) -> BaseTask {
    BaseTask {
        id: id.to_string(),
        category: "periodic".to_string(),
        task: "http://t/x".to_string(),
        scheduled_at: at,
        cron_scheduled_at: cron.to_string(),
        ..Default::default()
    }
}

#[test]
fn resolver_daily_midnight() {
    // next midnight after 2021-08-12T10:40:00Z is 2021-08-13T00:00:00Z
    assert_eq!(next_firing_after("0 0 * * *", REF).unwrap(), 1628812800);
}

#[test]
fn resolver_hourly() {
    // next top of the hour is 2021-08-12T11:00:00Z
    assert_eq!(next_firing_after("0 * * * *", REF).unwrap(), 1628766000);
}

#[test]
fn resolver_five_and_six_fields_agree() {
    let five = next_firing_after("0 * * * *", REF).unwrap();
    let six = next_firing_after("0 0 * * * *", REF).unwrap();
    assert_eq!(five, six);
}

#[test]
fn resolver_deterministic_and_strictly_after() {
    let a = next_firing_after("0 0 * * *", REF).unwrap();
    let b = next_firing_after("0 0 * * *", REF).unwrap();
    assert_eq!(a, b);
    assert!(a > REF);
}

#[test]
fn resolver_rejects_bad_field_counts() {
    assert!(matches!(
        next_firing_after("0 0 *", REF),
        Err(TaskQueueError::CronParse(_))
    ));
    assert!(matches!(
        next_firing_after("0 0 0 * * * 2099", REF),
        Err(TaskQueueError::CronParse(_))
    ));
}

#[test]
fn resolver_rejects_unparseable_expression() {
    assert!(matches!(
        next_firing_after("not a cron at all", REF),
        Err(TaskQueueError::CronParse(_))
    ));
    assert!(!cron_expr_accepted("not a cron at all"));
    assert!(cron_expr_accepted("0 0 * * *"));
    assert!(cron_expr_accepted("0 0 0 * * *"));
}

#[test]
fn resolver_accepts_tab_separated_fields() {
    assert_eq!(
        next_firing_after("0\t0 * * *", REF).unwrap(),
        next_firing_after("0 0 * * *", REF).unwrap()
    );
}

#[test]
fn periodic_reschedule() {
    let mut q = TimedQueue::new();
    let c = periodic("C", "0 * * * *", REF as u64);
    enqueue_task(&mut q, &c).unwrap();
    let fired = dequeue_task(&mut q, REF as u64).unwrap().expect("C is due");
    assert_eq!(fired.id, "C");
    assert_eq!(q.len(), 0);
    let next = worker_step(&fired, DispatchOutcome::Delivered, REF).expect("periodic reschedules");
    assert_eq!(next.id, "C");
    assert_eq!(next.scheduled_at, 1628766000);
    enqueue_task(&mut q, &next).unwrap();
    assert_eq!(q.len(), 1);
    assert_eq!(q.entries[0].score, 1628766000);
}

#[test]
fn reschedule_advances_past_now_and_old_firing() {
    let c = periodic("C", "0 * * * *", REF as u64);
    let next = worker_step(&c, DispatchOutcome::Delivered, REF).expect("periodic reschedules");
    assert!((next.scheduled_at as i64) > REF);
    assert!(next.scheduled_at > c.scheduled_at);
}

#[test]
fn transport_failure_still_reschedules() {
    let c = periodic("C", "0 * * * *", REF as u64);
    let ok = worker_step(&c, DispatchOutcome::Delivered, REF).expect("reschedule");
    let failed = worker_step(&c, DispatchOutcome::TransportFailed, REF).expect("reschedule");
    assert_eq!(ok.scheduled_at, failed.scheduled_at);
    assert_eq!(ok.id, failed.id);
}

#[test]
fn worker_drops_one_shot_and_bad_cron() {
    let one_shot = BaseTask {
        category: "other".to_string(),
        scheduled_at: 5,
        ..Default::default()
    };
    assert!(worker_step(&one_shot, DispatchOutcome::Delivered, REF).is_none());
    let broken = periodic("X", "nonsense", REF as u64);
    assert!(worker_step(&broken, DispatchOutcome::Delivered, REF).is_none());
}

#[test]
fn puller_never_exits_on_error() {
    let err: Result<Option<BaseTask>, TaskQueueError> =
        Err(TaskQueueError::Redis("connection reset".to_string()));
    assert!(matches!(puller_step(err), PullerAction::Idle));
    let empty: Result<Option<BaseTask>, TaskQueueError> = Ok(None);
    assert!(matches!(puller_step(empty), PullerAction::Idle));
    let task = BaseTask { id: "A".to_string(), ..Default::default() };
    match puller_step(Ok(Some(task))) {
        PullerAction::Deliver(t) => assert_eq!(t.id, "A"),
        PullerAction::Idle => panic!("a popped task must be delivered"),
    }
}

#[test]
fn handoff_channel_is_bounded_and_fifo() {
    let mut ch = HandoffChannel::new();
    for i in 0..HANDOFF_CAPACITY {
        let t = BaseTask { id: format!("t{}", i), ..Default::default() };
        assert!(ch.try_send(t).is_none());
    }
    assert_eq!(ch.len(), HANDOFF_CAPACITY);
    let extra = BaseTask { id: "overflow".to_string(), ..Default::default() };
    let back = ch.try_send(extra).expect("full channel hands the task back");
    assert_eq!(back.id, "overflow");
    assert_eq!(ch.len(), HANDOFF_CAPACITY);
    let first = ch.recv().expect("channel holds tasks");
    assert_eq!(first.id, "t0");
    let second = ch.recv().expect("channel holds tasks");
    assert_eq!(second.id, "t1");
    assert_eq!(ch.len(), HANDOFF_CAPACITY - 2);
}

#[test]
fn try_set_next_checks_the_cron() {
    let mut broken = periodic("X", "nonsense", 5);
    assert!(matches!(
        broken.try_set_next_unix_datetime(),
        Err(TaskQueueError::CronParse(_))
    ));
    assert_eq!(broken.scheduled_at, 5);
    let mut fine = periodic("Y", "0 0 * * *", 5);
    fine.try_set_next_unix_datetime().unwrap();
    assert!(fine.scheduled_at > 5);
    let mut one_shot = BaseTask { scheduled_at: 5, ..Default::default() };
    one_shot.try_set_next_unix_datetime().unwrap();
    assert_eq!(one_shot.scheduled_at, 5);
}
