use vstd::prelude::*;

use crate::task::BaseTask;
use crate::task::TaskView;

verus! {

/// The fixed capacity of the handoff channel between the puller and the
/// worker pool.
pub const HANDOFF_CAPACITY: usize = 32;

/// The bounded in-process handoff queue between the puller and the worker
/// pool. It never holds more than [`HANDOFF_CAPACITY`] tasks; offering a
/// task to a full channel hands the task back, so the caller suspends and
/// nothing is dropped; tasks leave in the order they entered.
pub struct HandoffChannel {
    pub buf: Vec<BaseTask>,
}

impl View for HandoffChannel {
    type V = Seq<TaskView>;

    open spec fn view(&self) -> Seq<TaskView> {
        Seq::new(self.buf@.len(), |k: int| self.buf@[k]@)
    }
}

impl HandoffChannel {
    /// The channel's bound: it never holds more than its capacity.
    pub open spec fn wf(&self) -> bool {
        self@.len() <= HANDOFF_CAPACITY
    }

    /// The empty channel.
    pub fn new() -> (r: HandoffChannel)
        ensures
            r@ == Seq::<TaskView>::empty(),
            r.wf(),
    {
        let ch = HandoffChannel { buf: Vec::new() };
        proof {
            assert(ch@ =~= Seq::<TaskView>::empty());
        }
        ch
    }

    /// The number of tasks waiting in the channel.
    pub fn len(&self) -> (n: usize)
        ensures
            n == self@.len(),
    {
        self.buf.len()
    }

    /// Offers a task. Against a full channel the task comes back unchanged
    /// and the channel is untouched — the sender suspends rather than
    /// dropping work; otherwise the task joins the end of the queue.
    pub fn try_send(&mut self, t: BaseTask) -> (r: Option<BaseTask>)
        requires
            old(self).wf(),
        ensures
            final(self).wf(),
            old(self)@.len() >= HANDOFF_CAPACITY ==> r == Some(t) && *final(self) == *old(self),
            old(self)@.len() < HANDOFF_CAPACITY ==> r is None && final(self)@ == old(self)@.push(
                t@,
            ),
    {
        if self.buf.len() >= HANDOFF_CAPACITY {
            Some(t)
        } else {
            let ghost v0 = self@;
            self.buf.push(t);
            proof {
                assert(self@ =~= v0.push(t@));
            }
            Option::None
        }
    }

    /// Draws the oldest waiting task, first in, first out.
    pub fn recv(&mut self) -> (r: Option<BaseTask>)
        requires
            old(self).wf(),
        ensures
            final(self).wf(),
            old(self)@.len() == 0 ==> r is None && *final(self) == *old(self),
            old(self)@.len() > 0 ==> (r matches Some(t) && t@ == old(self)@[0] && final(self)@
                == old(self)@.drop_first()),
    {
        if self.buf.len() == 0 {
            Option::None
        } else {
            let ghost v0 = self@;
            let t = self.buf.remove(0);
            proof {
                assert(self@ =~= v0.drop_first());
            }
            Some(t)
        }
    }
}

/// The handoff channel never holds more than its fixed capacity.
pub proof fn lemma_handoff_bounded(ch: HandoffChannel)
    requires
        ch.wf(),
    ensures
        ch@.len() <= HANDOFF_CAPACITY,
{
}

} // verus!
