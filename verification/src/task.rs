use vstd::prelude::*;

use crate::errors::TaskQueueError;
use crate::schedule::cron_accepted;
use crate::schedule::spec_next_firing;
use vstd::string::StringExecFns;

verus! {

/// The mathematical value of a [`BaseTask`]: every string field as a sequence
/// of characters, and the optional argument payload as a sequence of
/// key/value pairs.
pub ghost struct TaskView {
    pub id: Seq<char>,
    pub name: Seq<char>,
    pub description: Seq<char>,
    pub category: Seq<char>,
    pub priority: Seq<char>,
    pub task: Seq<char>,
    pub scheduled_at: u64,
    pub cron_scheduled_at: Seq<char>,
    pub args: Option<Seq<(Seq<char>, Seq<char>)>>,
}

/// The unit of schedulable work.
///
/// `scheduled_at` is the concrete firing time in Unix seconds and is the
/// queue's score. `category == "periodic"` marks a task that is re-enqueued
/// after each firing, using `cron_scheduled_at` (a five- or six-field cron
/// expression) to compute the next firing. `task` is the HTTP endpoint the
/// dispatcher posts to on firing; `args` is an opaque payload carried to the
/// callee.
#[derive(Debug, Clone)]
pub struct BaseTask {
    pub id: String,
    pub name: String,
    pub description: String,
    pub category: String,
    pub priority: String,
    pub task: String,
    pub scheduled_at: u64,
    pub cron_scheduled_at: String,
    pub args: Option<Vec<(String, String)>>,
}

/// The value of an argument payload: each key and value as character
/// sequences, in order.
pub open spec fn args_view(a: Option<Vec<(String, String)>>) -> Option<
    Seq<(Seq<char>, Seq<char>)>,
> {
    match a {
        Option::None => Option::None,
        Option::Some(v) => Option::Some(Seq::new(v@.len(), |i: int| (v@[i].0@, v@[i].1@))),
    }
}

impl View for BaseTask {
    type V = TaskView;

    open spec fn view(&self) -> TaskView {
        TaskView {
            id: self.id@,
            name: self.name@,
            description: self.description@,
            category: self.category@,
            priority: self.priority@,
            task: self.task@,
            scheduled_at: self.scheduled_at,
            cron_scheduled_at: self.cron_scheduled_at@,
            args: args_view(self.args),
        }
    }
}

/// The incoming JSON payload accepted by the ingress surface; field for field
/// the same shape as [`BaseTask`].
#[derive(Debug)]
pub struct BaseTaskPayload {
    pub id: String,
    pub name: String,
    pub description: String,
    pub category: String,
    pub priority: String,
    pub task: String,
    pub scheduled_at: u64,
    pub cron_scheduled_at: String,
    pub args: Option<Vec<(String, String)>>,
}

impl From<BaseTaskPayload> for BaseTask {
    fn from(payload: BaseTaskPayload) -> (r: BaseTask) {
        BaseTask {
            id: payload.id,
            name: payload.name,
            description: payload.description,
            category: payload.category,
            priority: payload.priority,
            task: payload.task,
            scheduled_at: payload.scheduled_at,
            cron_scheduled_at: payload.cron_scheduled_at,
            args: payload.args,
        }
    }
}

impl vstd::std_specs::convert::FromSpecImpl<BaseTaskPayload> for BaseTask {
    open spec fn obeys_from_spec() -> bool {
        true
    }

    open spec fn from_spec(payload: BaseTaskPayload) -> BaseTask {
        BaseTask {
            id: payload.id,
            name: payload.name,
            description: payload.description,
            category: payload.category,
            priority: payload.priority,
            task: payload.task,
            scheduled_at: payload.scheduled_at,
            cron_scheduled_at: payload.cron_scheduled_at,
            args: payload.args,
        }
    }
}

/// The same task value with its firing time replaced.
pub open spec fn spec_with_scheduled_at(v: TaskView, s: u64) -> TaskView {
    TaskView { scheduled_at: s, ..v }
}

fn clone_args(a: &Option<Vec<(String, String)>>) -> (r: Option<Vec<(String, String)>>)
    ensures
        args_view(r) == args_view(*a),
{
    match a {
        Option::None => Option::None,
        Option::Some(v) => {
            let mut out: Vec<(String, String)> = Vec::new();
            let mut i: usize = 0;
            while i < v.len()
                invariant
                    i <= v.len(),
                    out@.len() == i,
                    forall|t: int|
                        0 <= t < i ==> ((#[trigger] out@[t]).0@, out@[t].1@) == (
                            v@[t].0@,
                            v@[t].1@,
                        ),
                decreases v.len() - i,
            {
                out.push((v[i].0.clone(), v[i].1.clone()));
                i = i + 1;
            }
            proof {
                assert(Seq::new(out@.len(), |t: int| (out@[t].0@, out@[t].1@)) =~= Seq::new(
                    v@.len(),
                    |t: int| (v@[t].0@, v@[t].1@),
                ));
            }
            Some(out)
        },
    }
}

impl BaseTask {
    /// A copy of the task with its firing time replaced.
    pub fn with_scheduled_at(&self, s: u64) -> (r: BaseTask)
        ensures
            r@ == spec_with_scheduled_at(self@, s),
    {
        BaseTask {
            id: self.id.clone(),
            name: self.name.clone(),
            description: self.description.clone(),
            category: self.category.clone(),
            priority: self.priority.clone(),
            task: self.task.clone(),
            scheduled_at: s,
            cron_scheduled_at: self.cron_scheduled_at.clone(),
            args: clone_args(&self.args),
        }
    }

    /// Whether the task is periodic, i.e. re-enqueued after each firing.
    pub fn is_periodic_task(&self) -> (b: bool)
        ensures
            b == (self@.category == "periodic"@),
    {
        self.category == String::from_str("periodic")
    }

    /// The next Unix instant at which the task should fire.
    ///
    /// A non-periodic task fires at its stored `scheduled_at`. A periodic
    /// task fires at the next instant matching its cron expression strictly
    /// after the present; if the schedule has no upcoming instant, the stored
    /// `scheduled_at` is returned unchanged.
    pub fn get_next_unix_datetime(&self) -> (r: i64)
        requires
            self@.scheduled_at <= i64::MAX as u64,
            self@.category == "periodic"@ ==> cron_accepted(self@.cron_scheduled_at),
        ensures
            0 <= r,
            self@.category != "periodic"@ ==> r == self@.scheduled_at as i64,
            self@.category == "periodic"@ ==> r == self@.scheduled_at as i64 || (exists|
                now: int,
            |
                0 <= now && now < r && #[trigger] spec_next_firing(
                    self@.cron_scheduled_at,
                    now,
                ) == Some(r as int)),
    {
        if !self.is_periodic_task() {
            return self.scheduled_at as i64;
        }
        let now = crate::clamp_reference(crate::schedule::now_unix());
        match crate::schedule::next_firing_after(self.cron_scheduled_at.as_str(), now) {
            Ok(t) => t,
            Err(_) => self.scheduled_at as i64,
        }
    }

    /// Replaces `scheduled_at` by the task's next firing time, as
    /// [`Self::get_next_unix_datetime`] computes it; every other field is
    /// kept.
    pub fn set_next_unix_datetime(&mut self)
        requires
            old(self)@.scheduled_at <= i64::MAX as u64,
            old(self)@.category == "periodic"@ ==> cron_accepted(old(self)@.cron_scheduled_at),
        ensures
            final(self)@ == spec_with_scheduled_at(old(self)@, final(self)@.scheduled_at),
            old(self)@.category != "periodic"@ ==> final(self)@ == old(self)@,
            old(self)@.category == "periodic"@ ==> final(self)@.scheduled_at == old(
                self,
            )@.scheduled_at || (exists|now: int|
                0 <= now && now < final(self)@.scheduled_at && #[trigger] spec_next_firing(
                    old(self)@.cron_scheduled_at,
                    now,
                ) == Some(final(self)@.scheduled_at as int)),
    {
        let t = self.get_next_unix_datetime();
        self.scheduled_at = t as u64;
    }

    /// Refreshes `scheduled_at` like [`Self::set_next_unix_datetime`], after
    /// first checking the cron expression; a periodic task whose expression
    /// the resolver does not accept is left unchanged and reported as
    /// `CronParse`.
    pub fn try_set_next_unix_datetime(&mut self) -> (r: Result<(), TaskQueueError>)
        requires
            old(self)@.scheduled_at <= i64::MAX as u64,
        ensures
            r is Ok <==> (old(self)@.category != "periodic"@ || cron_accepted(
                old(self)@.cron_scheduled_at,
            )),
            r is Err ==> final(self)@ == old(self)@,
            old(self)@.category != "periodic"@ ==> final(self)@ == old(self)@,
            final(self)@ == spec_with_scheduled_at(old(self)@, final(self)@.scheduled_at),
            old(self)@.category == "periodic"@ && r is Ok ==> final(self)@.scheduled_at == old(
                self,
            )@.scheduled_at || (exists|now: int|
                0 <= now && now < final(self)@.scheduled_at && #[trigger] spec_next_firing(
                    old(self)@.cron_scheduled_at,
                    now,
                ) == Some(final(self)@.scheduled_at as int)),
    {
        if !self.is_periodic_task() {
            return Ok(());
        }
        if crate::schedule::cron_expr_accepted(self.cron_scheduled_at.as_str()) {
            self.set_next_unix_datetime();
            Ok(())
        } else {
            Err(TaskQueueError::CronParse(String::from_str("invalid cron expression")))
        }
    }
}

impl Default for BaseTask {
    /// The empty task: every string empty, firing time zero, no payload.
    fn default() -> (r: BaseTask)
        ensures
            r@.id == Seq::<char>::empty(),
            r@.name == Seq::<char>::empty(),
            r@.description == Seq::<char>::empty(),
            r@.category == Seq::<char>::empty(),
            r@.priority == Seq::<char>::empty(),
            r@.task == Seq::<char>::empty(),
            r@.scheduled_at == 0,
            r@.cron_scheduled_at == Seq::<char>::empty(),
            r@.args is None,
    {
        BaseTask {
            id: String::new(),
            name: String::new(),
            description: String::new(),
            category: String::new(),
            priority: String::new(),
            task: String::new(),
            scheduled_at: 0,
            cron_scheduled_at: String::new(),
            args: Option::None,
        }
    }
}

} // verus!
