use vstd::prelude::*;

use crate::codec::append_escaped;
use crate::codec::escape_seq;
use crate::codec::push_one;
use crate::codec::ser_task;
use crate::errors::TaskQueueError;
use crate::queue::entries_map;
use crate::schedule::next_firing_after;
use crate::schedule::spec_next_firing;
use crate::task::BaseTask;
use crate::task::TaskView;
use crate::task::spec_with_scheduled_at;
use vstd::string::StringExecFns;

verus! {

/// The JSON body posted to a task's target URL on firing: an object
/// carrying the task's id.
pub open spec fn dispatch_body_spec(v: TaskView) -> Seq<char> {
    ("{\"task_id\":\"")@ + escape_seq(v.id) + seq!['"'] + seq!['}']
}

/// Builds the outbound dispatch body for a task.
pub fn dispatch_body(task: &BaseTask) -> (r: String)
    ensures
        r@ == dispatch_body_spec(task@),
{
    let mut out = String::from_str("{\"task_id\":\"");
    append_escaped(&mut out, task.id.as_str());
    push_one(&mut out, '"');
    push_one(&mut out, '}');
    out
}

/// What became of one outbound POST: any delivered response counts as a
/// completion, and a transport failure is recorded, never retried.
#[derive(Clone, Copy, Debug, PartialEq, Eq, Structural)]
pub enum DispatchOutcome {
    Delivered,
    TransportFailed,
}

/// The re-scheduling decision after a dispatch: a periodic task whose cron
/// expression resolves to a next firing is re-enqueued at that instant;
/// a one-shot task, or a periodic task whose expression fails to resolve,
/// is dropped.
pub open spec fn plan_reschedule_spec(v: TaskView, now: int) -> Option<TaskView> {
    if v.category == "periodic"@ {
        match spec_next_firing(v.cron_scheduled_at, now) {
            Option::Some(t) => if 0 <= t <= u64::MAX {
                Option::Some(spec_with_scheduled_at(v, t as u64))
            } else {
                Option::None
            },
            Option::None => Option::None,
        }
    } else {
        Option::None
    }
}

/// One worker decision after a dispatch attempt: whether to re-enqueue the
/// task, and with what firing time. The outcome does not enter the
/// decision — a periodic task is re-scheduled whether or not the POST was
/// delivered, and the contract makes no mention of `outcome`.
pub fn worker_step(task: &BaseTask, outcome: DispatchOutcome, now: i64) -> (r: Option<BaseTask>)
    requires
        0 <= now <= crate::MAX_CRON_REFERENCE,
    ensures
        match r {
            Option::Some(t2) => plan_reschedule_spec(task@, now as int) == Some(t2@)
                && t2@.scheduled_at > now,
            Option::None => plan_reschedule_spec(task@, now as int) is None,
        },
{
    let _ = outcome;
    if !task.is_periodic_task() {
        return Option::None;
    }
    match next_firing_after(task.cron_scheduled_at.as_str(), now) {
        Ok(t) => Some(task.with_scheduled_at(t as u64)),
        Err(_) => Option::None,
    }
}

/// The action the puller takes after one poll of the timed queue.
pub enum PullerAction {
    Deliver(BaseTask),
    Idle,
}

/// One puller decision: a popped task is handed on to the channel; an
/// empty poll, or any backing-store or decoding error, leads to an idle
/// pause before the next poll. No error maps to an exit — the puller loop
/// cannot be killed by a single bad poll.
pub fn puller_step(pop: Result<Option<BaseTask>, TaskQueueError>) -> (r: PullerAction)
    ensures
        pop matches Ok(Some(t)) ==> (r matches PullerAction::Deliver(t2) && t2 == t),
        pop matches Ok(o) && o is None ==> r matches PullerAction::Idle,
        pop is Err ==> r matches PullerAction::Idle,
{
    match pop {
        Ok(Some(t)) => PullerAction::Deliver(t),
        Ok(None) => PullerAction::Idle,
        Err(_) => PullerAction::Idle,
    }
}

/// After a due periodic task is dispatched and its re-scheduled copy
/// enqueued, the queue holds an entry for the copy whose firing time is
/// strictly later than both the dispatched task's firing time and the
/// instant of rescheduling.
pub proof fn lemma_periodic_reschedule_advances(
    v: TaskView,
    t2: TaskView,
    now: int,
    q1: Seq<(Seq<char>, u64)>,
    q2: Seq<(Seq<char>, u64)>,
)
    requires
        v.scheduled_at <= now,
        plan_reschedule_spec(v, now) == Some(t2),
        t2.scheduled_at > now,
        entries_map(q2) == entries_map(q1).insert(ser_task(t2), t2.scheduled_at),
    ensures
        entries_map(q2).contains_key(ser_task(t2)),
        entries_map(q2)[ser_task(t2)] == t2.scheduled_at,
        t2.scheduled_at > now,
        t2.scheduled_at > v.scheduled_at,
{
}

/// A failed POST re-schedules a periodic task exactly as a delivered one
/// does: any two results that meet [`worker_step`]'s contract for the same
/// task and instant are equal, whatever the two outcomes were.
pub proof fn lemma_transport_failure_ignored(
    v: TaskView,
    now: int,
    r1: Option<TaskView>,
    r2: Option<TaskView>,
)
    requires
        (match r1 {
            Option::Some(t) => plan_reschedule_spec(v, now) == Some(t),
            Option::None => plan_reschedule_spec(v, now) is None,
        }),
        (match r2 {
            Option::Some(t) => plan_reschedule_spec(v, now) == Some(t),
            Option::None => plan_reschedule_spec(v, now) is None,
        }),
    ensures
        r1 == r2,
{
}

} // verus!
