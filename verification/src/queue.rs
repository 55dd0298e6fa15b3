use vstd::prelude::*;

use crate::codec::deserialize_task;
use crate::codec::lemma_json_round_trip;
use crate::codec::parse_task;
use crate::codec::ser_task;
use crate::codec::serialize_task;
use crate::errors::TaskQueueError;
use crate::task::BaseTask;

verus! {

/// One member of the timed queue: a serialized task and its firing-time
/// score in Unix seconds.
pub struct QueueEntry {
    pub member: String,
    pub score: u64,
}

/// The timed queue: an ordered set of serialized tasks, each keyed by its
/// firing time. Members are held in non-decreasing score order, one entry
/// per distinct member — enqueueing the same serialized task twice leaves a
/// single entry, as an ordered-set store does.
pub struct TimedQueue {
    pub entries: Vec<QueueEntry>,
}

impl View for TimedQueue {
    type V = Seq<(Seq<char>, u64)>;

    open spec fn view(&self) -> Seq<(Seq<char>, u64)> {
        Seq::new(self.entries@.len(), |k: int| (self.entries@[k].member@, self.entries@[k].score))
    }
}

/// Scores never decrease along the queue.
pub open spec fn sorted_scores(s: Seq<(Seq<char>, u64)>) -> bool {
    forall|a: int, b: int| 0 <= a < b < s.len() ==> (#[trigger] s[a]).1 <= (#[trigger] s[b]).1
}

/// No serialized task occurs twice.
pub open spec fn unique_members(s: Seq<(Seq<char>, u64)>) -> bool {
    forall|a: int, b: int| 0 <= a < b < s.len() ==> (#[trigger] s[a]).0 != (#[trigger] s[b]).0
}

/// Every member that parses as a task is keyed by exactly that task's
/// firing time.
pub open spec fn scores_match(s: Seq<(Seq<char>, u64)>) -> bool {
    forall|k: int|
        0 <= k < s.len() ==> ((#[trigger] parse_task(s[k].0)) matches Some(tv) ==> tv.scheduled_at
            == s[k].1)
}

/// Whether some entry holds the member `m`.
pub open spec fn seq_has_member(s: Seq<(Seq<char>, u64)>, m: Seq<char>) -> bool {
    exists|k: int| 0 <= k < s.len() && (#[trigger] s[k]).0 == m
}

/// The queue's contents as a map from serialized task to firing time.
pub open spec fn entries_map(s: Seq<(Seq<char>, u64)>) -> Map<Seq<char>, u64>
    decreases s.len(),
{
    if s.len() == 0 {
        Map::empty()
    } else {
        entries_map(s.drop_last()).insert(s.last().0, s.last().1)
    }
}

impl TimedQueue {
    /// The queue's well-formedness: ordered by firing time, one entry per
    /// member, and every member keyed by its own firing time.
    pub open spec fn wf(&self) -> bool {
        sorted_scores(self@) && unique_members(self@) && scores_match(self@)
    }

    /// The empty queue.
    pub fn new() -> (r: TimedQueue)
        ensures
            r@ == Seq::<(Seq<char>, u64)>::empty(),
            r.wf(),
    {
        let q = TimedQueue { entries: Vec::new() };
        proof {
            assert(q@ =~= Seq::<(Seq<char>, u64)>::empty());
        }
        q
    }

    /// The number of queued members.
    pub fn len(&self) -> (n: usize)
        ensures
            n == self@.len(),
    {
        self.entries.len()
    }
}

proof fn lemma_entries_map_member(s: Seq<(Seq<char>, u64)>, m: Seq<char>)
    ensures
        entries_map(s).contains_key(m) <==> seq_has_member(s, m),
    decreases s.len(),
{
    if s.len() > 0 {
        lemma_entries_map_member(s.drop_last(), m);
        if entries_map(s).contains_key(m) {
            if m == s.last().0 {
                assert(s[s.len() - 1].0 == m);
                assert(seq_has_member(s, m));
            } else {
                let k = choose|k: int|
                    0 <= k < s.drop_last().len() && (#[trigger] s.drop_last()[k]).0 == m;
                assert(s[k].0 == m);
                assert(seq_has_member(s, m));
            }
        }
        if seq_has_member(s, m) {
            let k = choose|k: int| 0 <= k < s.len() && (#[trigger] s[k]).0 == m;
            if k == s.len() - 1 {
                assert(entries_map(s).contains_key(m));
            } else {
                assert(s.drop_last()[k].0 == m);
                assert(seq_has_member(s.drop_last(), m));
                assert(entries_map(s).contains_key(m));
            }
        }
    }
}

proof fn lemma_entries_map_insert(s: Seq<(Seq<char>, u64)>, k: int, e: (Seq<char>, u64))
    requires
        0 <= k <= s.len(),
        forall|t: int| 0 <= t < s.len() ==> (#[trigger] s[t]).0 != e.0,
    ensures
        entries_map(s.insert(k, e)) == entries_map(s).insert(e.0, e.1),
    decreases s.len(),
{
    if k == s.len() {
        assert(s.insert(k, e).drop_last() =~= s);
        assert(s.insert(k, e).last() == e);
    } else {
        let t = s.insert(k, e);
        assert(t.last() == s.last());
        assert(t.drop_last() =~= s.drop_last().insert(k, e));
        assert(forall|u: int|
            0 <= u < s.drop_last().len() ==> (#[trigger] s.drop_last()[u]).0 != e.0) by {
            assert(forall|u: int|
                0 <= u < s.drop_last().len() ==> (#[trigger] s.drop_last()[u]) == s[u]);
        }
        lemma_entries_map_insert(s.drop_last(), k, e);
        // the two inserts commute because the keys differ
        assert(s.last().0 != e.0);
        assert(entries_map(s.drop_last()).insert(e.0, e.1).insert(s.last().0, s.last().1)
            =~= entries_map(s.drop_last()).insert(s.last().0, s.last().1).insert(e.0, e.1));
    }
}

proof fn lemma_entries_map_remove(s: Seq<(Seq<char>, u64)>, k: int)
    requires
        unique_members(s),
        0 <= k < s.len(),
    ensures
        entries_map(s.remove(k)) == entries_map(s).remove(s[k].0),
    decreases s.len(),
{
    if k == s.len() - 1 {
        assert(s.remove(k) =~= s.drop_last());
        assert(!seq_has_member(s.drop_last(), s.last().0)) by {
            if seq_has_member(s.drop_last(), s.last().0) {
                let u = choose|u: int|
                    0 <= u < s.drop_last().len() && (#[trigger] s.drop_last()[u]).0 == s.last().0;
                assert(s[u].0 == s[s.len() - 1].0);
                assert(false);
            }
        }
        lemma_entries_map_member(s.drop_last(), s.last().0);
        assert(entries_map(s).remove(s[k].0) =~= entries_map(s.drop_last()));
    } else {
        let t = s.remove(k);
        assert(t.last() == s.last());
        assert(t.drop_last() =~= s.drop_last().remove(k));
        assert(unique_members(s.drop_last())) by {
            assert(forall|u: int|
                0 <= u < s.drop_last().len() ==> (#[trigger] s.drop_last()[u]) == s[u]);
        }
        lemma_entries_map_remove(s.drop_last(), k);
        assert(s.drop_last()[k] == s[k]);
        assert(s[k].0 != s.last().0);
        assert(entries_map(s.drop_last()).remove(s[k].0).insert(s.last().0, s.last().1)
            =~= entries_map(s.drop_last()).insert(s.last().0, s.last().1).remove(s[k].0));
    }
}

proof fn lemma_wf_remove(s: Seq<(Seq<char>, u64)>, k: int)
    requires
        sorted_scores(s),
        unique_members(s),
        scores_match(s),
        0 <= k < s.len(),
    ensures
        sorted_scores(s.remove(k)),
        unique_members(s.remove(k)),
        scores_match(s.remove(k)),
        forall|t: int|
            0 <= t < s.remove(k).len() ==> (#[trigger] s.remove(k)[t]) == (if t < k {
                s[t]
            } else {
                s[t + 1]
            }),
{
    assert(forall|t: int|
        0 <= t < s.remove(k).len() ==> (#[trigger] s.remove(k)[t]) == (if t < k {
            s[t]
        } else {
            s[t + 1]
        }));
}

/// Admits a task: one entry per serialized form, keyed by the task's firing
/// time, exactly an ordered-set insertion of the serialized task with its
/// score. Does not fail.
#[verifier::rlimit(100)]
#[verifier::spinoff_prover]
pub fn enqueue_task(q: &mut TimedQueue, task: &BaseTask) -> (r: Result<(), TaskQueueError>)
    requires
        old(q).wf(),
    ensures
        final(q).wf(),
        r is Ok,
        entries_map(final(q)@) == entries_map(old(q)@).insert(
            ser_task(task@),
            task@.scheduled_at,
        ),
        entries_map(final(q)@).contains_key(ser_task(task@)),
        entries_map(final(q)@)[ser_task(task@)] == task@.scheduled_at,
        seq_has_member(final(q)@, ser_task(task@)),
        final(q)@.len() == old(q)@.len() + (if seq_has_member(old(q)@, ser_task(task@)) {
            0int
        } else {
            1int
        }),
{
    let member = serialize_task(task);
    let score = task.scheduled_at;
    proof {
        lemma_json_round_trip(task@);
    }
    let n = q.entries.len();
    let mut pos: usize = n;
    let mut i: usize = 0;
    while i < n
        invariant
            i <= n,
            n == q@.len(),
            member@ == ser_task(task@),
            pos == n || (pos < i && q@[pos as int].0 == member@),
            pos == n ==> forall|t: int| 0 <= t < i ==> (#[trigger] q@[t]).0 != member@,
        decreases n - i,
    {
        if pos == n && q.entries[i].member == member {
            pos = i;
        }
        i = i + 1;
    }
    let ghost v0 = q@;
    proof {
        if pos < n {
            assert(seq_has_member(v0, member@));
        } else {
            if seq_has_member(v0, member@) {
                let k = choose|k: int| 0 <= k < v0.len() && (#[trigger] v0[k]).0 == member@;
                assert(false);
            }
        }
    }
    if pos < n {
        let _ = q.entries.remove(pos);
        proof {
            assert(q@ =~= v0.remove(pos as int));
            lemma_wf_remove(v0, pos as int);
            lemma_entries_map_remove(v0, pos as int);
            assert(forall|t: int| 0 <= t < q@.len() ==> (#[trigger] q@[t]).0 != member@) by {
                assert(forall|t: int|
                    0 <= t < v0.remove(pos as int).len() ==> (#[trigger] v0.remove(pos as int)[t])
                        == (if t < pos {
                        v0[t]
                    } else {
                        v0[t + 1]
                    }));
            }
        }
    }
    let ghost v1 = q@;
    proof {
        assert(forall|t: int| 0 <= t < v1.len() ==> (#[trigger] v1[t]).0 != member@) by {
            if pos == n as usize {
                assert(v1 == v0);
            }
        }
        // the map after the removal phase is the old map without the member
        assert(entries_map(v1) =~= entries_map(v0).remove(member@)) by {
            if pos == n as usize {
                lemma_entries_map_member(v0, member@);
                assert(!entries_map(v0).contains_key(member@));
            }
        }
    }
    let n2 = q.entries.len();
    let mut p: usize = 0;
    while p < n2 && q.entries[p].score <= score
        invariant
            p <= n2,
            n2 == q@.len(),
            q@ == v1,
            forall|t: int| 0 <= t < p ==> (#[trigger] q@[t]).1 <= score,
        decreases n2 - p,
    {
        p = p + 1;
    }
    q.entries.insert(p, QueueEntry { member, score });
    proof {
        assert(q@ =~= v1.insert(p as int, (ser_task(task@), score)));
        lemma_entries_map_insert(v1, p as int, (ser_task(task@), score));
        let v2 = v1.insert(p as int, (ser_task(task@), score));
        assert(forall|t: int|
            0 <= t < v2.len() ==> (#[trigger] v2[t]) == (if t < p {
                v1[t]
            } else if t == p {
                (ser_task(task@), score)
            } else {
                v1[t - 1]
            }));
        assert(sorted_scores(v2)) by {
            assert(forall|t: int| p < t < v1.len() + 1 ==> (#[trigger] v2[t]).1 >= score) by {
                assert(p < v1.len() ==> v1[p as int].1 > score);
                assert(forall|t: int|
                    (p as int) <= t < v1.len() ==> (#[trigger] v1[t]).1 >= v1[p as int].1);
            }
        }
        assert(unique_members(v2));
        assert(scores_match(v2)) by {
            assert(parse_task(ser_task(task@)) == Some(task@));
        }
        assert(seq_has_member(v2, ser_task(task@))) by {
            assert(v2[p as int].0 == ser_task(task@));
        }
        assert(entries_map(v2) =~= entries_map(v0).insert(ser_task(task@), task@.scheduled_at));
        lemma_entries_map_member(v0, member@);
    }
    Ok(())
}

/// Extracts the earliest due member, atomically with respect to the queue
/// value: if the smallest score is at most `now`, that entry is removed and
/// its task returned; a member that does not parse is still removed, and
/// reported as a `Serde` error, so it cannot wedge the puller; with no due
/// member the queue is unchanged and no task is returned.
pub fn dequeue_task(q: &mut TimedQueue, now: u64) -> (r: Result<Option<BaseTask>, TaskQueueError>)
    requires
        old(q).wf(),
    ensures
        final(q).wf(),
        r matches Err(e) ==> e matches TaskQueueError::Serde(_),
        r is Err <==> (old(q)@.len() > 0 && old(q)@[0].1 <= now && parse_task(
            old(q)@[0].0,
        ) is None),
        (old(q)@.len() == 0 || old(q)@[0].1 > now) ==> (r matches Ok(o) && o is None
            && final(q)@ == old(q)@),
        (old(q)@.len() > 0 && old(q)@[0].1 <= now) ==> final(q)@ == old(q)@.drop_first() && (
        match parse_task(old(q)@[0].0) {
            Some(tv) => (r matches Ok(o) && o matches Some(t) && t@ == tv),
            None => r is Err,
        }),
        (r matches Ok(o) && o matches Some(t)) ==> (old(q)@.len() > 0 && old(q)@[0].1 <= now
            && (r->Ok_0->Some_0)@ == parse_task(old(q)@[0].0)->Some_0 && (r->Ok_0->Some_0)@.scheduled_at
            == old(q)@[0].1 && (r->Ok_0->Some_0)@.scheduled_at <= now && (forall|k: int|
            0 <= k < old(q)@.len() ==> (#[trigger] old(q)@[k]).1 >= (r->Ok_0->Some_0)@.scheduled_at)
            && (forall|k: int|
            0 <= k < final(q)@.len() ==> (#[trigger] final(q)@[k]).1 >= (
            r->Ok_0->Some_0)@.scheduled_at)),
{
    if q.entries.len() == 0 {
        return Ok(Option::None);
    }
    if q.entries[0].score > now {
        return Ok(Option::None);
    }
    let ghost v0 = q@;
    let entry = q.entries.remove(0);
    proof {
        assert(q@ =~= v0.drop_first()) by {
            assert(q@ =~= v0.remove(0));
            assert(v0.remove(0) =~= v0.drop_first());
        }
        lemma_wf_remove(v0, 0);
        assert(entry.member@ == v0[0].0);
        assert(entry.score == v0[0].1);
    }
    match deserialize_task(entry.member.as_str()) {
        Ok(t) => {
            proof {
                assert(parse_task(v0[0].0) == Some(t@));
                assert(t@.scheduled_at == v0[0].1);
            }
            Ok(Some(t))
        },
        Err(e) => Err(e),
    }
}

/// Deletes every queued member, as clearing the backing key does.
pub fn clear_task_queue(q: &mut TimedQueue) -> (r: Result<(), TaskQueueError>)
    ensures
        r is Ok,
        final(q)@ == Seq::<(Seq<char>, u64)>::empty(),
        final(q).wf(),
{
    q.entries = Vec::new();
    proof {
        assert(q@ =~= Seq::<(Seq<char>, u64)>::empty());
    }
    Ok(())
}

/// Enqueueing the same serialized task twice leaves a single entry: the
/// second enqueue changes neither the queue's contents nor its size.
pub proof fn lemma_duplicate_enqueue(
    q0: Seq<(Seq<char>, u64)>,
    q1: Seq<(Seq<char>, u64)>,
    q2: Seq<(Seq<char>, u64)>,
    m: Seq<char>,
    s: u64,
)
    requires
        entries_map(q1) == entries_map(q0).insert(m, s),
        seq_has_member(q1, m),
        entries_map(q2) == entries_map(q1).insert(m, s),
        q2.len() == q1.len() + (if seq_has_member(q1, m) {
            0int
        } else {
            1int
        }),
    ensures
        entries_map(q2) == entries_map(q1),
        q2.len() == q1.len(),
{
    assert(entries_map(q2) =~= entries_map(q1));
}

/// Among due members, extraction happens in non-decreasing firing-time
/// order: after the earliest member is popped, the next pop yields a score
/// at least as large.
pub proof fn lemma_extraction_order(q0: Seq<(Seq<char>, u64)>)
    requires
        sorted_scores(q0),
        q0.len() >= 2,
    ensures
        q0[0].1 <= q0.drop_first()[0].1,
{
    assert(q0.drop_first()[0] == q0[1]);
}

} // verus!
