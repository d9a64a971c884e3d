//! Delayed-task scheduler: a set of pending tasks, each with an absolute
//! fire time in milliseconds and an action to perform when it is due.
//!
//! The scheduler owns only the decision of *when* a task is handed out; the
//! caller performs the task's action and reports back the outcome, which
//! either finishes the task or reschedules it for a new fire time.

use vstd::prelude::*;

verus! {

/// A pending task: scheduled to fire at `fire_time` (milliseconds), carrying
/// a plain action value for the caller to perform. The `id` is unique among
/// all tasks a scheduler ever hands out.
pub struct Task<A> {
    pub id: u64,
    pub fire_time: u64,
    pub action: A,
}

/// What a fired task's action decided: the task is finished, or it shall
/// fire again at the given absolute time (which may already have passed,
/// in which case it is due at once).
#[derive(Clone, Copy, PartialEq, Eq, Structural, Debug)]
pub enum TaskOutcome {
    Done,
    RepeatAt(u64),
}

/// The set of pending tasks.
pub struct Scheduler<A> {
    pending: Vec<Task<A>>,
    next_id: u64,
}

/// A task is due once its fire time has been reached.
pub open spec fn due<A>(t: Task<A>, now: u64) -> bool {
    t.fire_time <= now
}

impl<A> Scheduler<A> {
    /// The pending tasks, in no significant order.
    pub closed spec fn tasks(&self) -> Seq<Task<A>> {
        self.pending@
    }

    /// The next fresh task id.
    pub closed spec fn fresh_id(&self) -> u64 {
        self.next_id
    }

    /// Task ids are unique and below the fresh id.
    pub open spec fn wf(&self) -> bool {
        &&& forall|i: int, j: int|
            0 <= i < j < self.tasks().len() ==> (#[trigger] self.tasks()[i].id) != (
            #[trigger] self.tasks()[j].id)
        &&& forall|i: int|
            0 <= i < self.tasks().len() ==> (#[trigger] self.tasks()[i].id) < self.fresh_id()
    }

    /// Some pending task has this id.
    pub open spec fn has_task(&self, id: u64) -> bool {
        exists|i: int| 0 <= i < self.tasks().len() && (#[trigger] self.tasks()[i].id) == id
    }

    /// An empty scheduler.
    pub fn new() -> (s: Self)
        ensures
            s.tasks() == Seq::<Task<A>>::empty(),
            s.wf(),
    {
        let s = Scheduler { pending: Vec::new(), next_id: 0 };
        proof {
            assert(s.tasks() =~= Seq::<Task<A>>::empty());
        }
        s
    }

    /// Enqueues a task to fire at the absolute time `fire_time`, under a
    /// fresh id, which is returned.
    pub fn add_task_at(&mut self, fire_time: u64, action: A) -> (id: u64)
        requires
            old(self).wf(),
            old(self).fresh_id() < u64::MAX,
        ensures
            final(self).wf(),
            id == old(self).fresh_id(),
            !old(self).has_task(id),
            final(self).tasks() == old(self).tasks().push(Task { id, fire_time, action }),
            final(self).fresh_id() == old(self).fresh_id() + 1,
    {
        let id = self.next_id;
        self.next_id = self.next_id + 1;
        let ghost pre = self.pending@;
        self.pending.push(Task { id, fire_time, action });
        proof {
            let post = self.pending@;
            assert(pre == old(self).tasks());
            assert forall|a: int, b: int| 0 <= a < b < post.len() implies (#[trigger] post[a].id)
                != (#[trigger] post[b].id) by {
                assert(old(self).tasks()[a].id < old(self).fresh_id());
                if b < pre.len() {
                    assert(old(self).tasks()[b].id < old(self).fresh_id());
                    assert(old(self).tasks()[a].id != old(self).tasks()[b].id);
                }
            }
            assert forall|a: int| 0 <= a < post.len() implies (#[trigger] post[a].id)
                < self.next_id by {
                if a < pre.len() {
                    assert(old(self).tasks()[a].id < old(self).fresh_id());
                }
            }
            assert forall|a: int| 0 <= a < pre.len() implies (#[trigger] pre[a].id) != id by {
                assert(old(self).tasks()[a].id < old(self).fresh_id());
            }
        }
        id
    }

    /// Enqueues a task to fire `delay_ms` milliseconds after `now`.
    pub fn add_task(&mut self, now: u64, delay_ms: u64, action: A) -> (id: u64)
        requires
            old(self).wf(),
            old(self).fresh_id() < u64::MAX,
            now + delay_ms <= u64::MAX,
        ensures
            final(self).wf(),
            id == old(self).fresh_id(),
            !old(self).has_task(id),
            final(self).tasks() == old(self).tasks().push(
                Task { id, fire_time: (now + delay_ms) as u64, action },
            ),
            final(self).fresh_id() == old(self).fresh_id() + 1,
    {
        self.add_task_at(now + delay_ms, action)
    }

    /// Finds the position of one due task, if any task is due.
    fn find_due(&self, now: u64) -> (r: Option<usize>)
        ensures
            match r {
                Some(i) => 0 <= i < self.tasks().len() && due(self.tasks()[i as int], now),
                None => forall|i: int|
                    0 <= i < self.tasks().len() ==> !due(#[trigger] self.tasks()[i], now),
            },
    {
        let n = self.pending.len();
        let mut i: usize = 0;
        while i < n
            invariant
                n == self.tasks().len(),
                0 <= i <= n,
                forall|j: int| 0 <= j < i ==> !due(#[trigger] self.tasks()[j], now),
            decreases n - i,
        {
            if self.pending[i].fire_time <= now {
                return Some(i);
            }
            i += 1;
        }
        None
    }

    /// Removes and returns one due task, if any. A task is handed out only
    /// once its fire time has been reached, and is no longer pending once
    /// handed out, so each firing delivers the task exactly once.
    pub fn pop_due(&mut self, now: u64) -> (r: Option<Task<A>>)
        requires
            old(self).wf(),
        ensures
            final(self).wf(),
            final(self).fresh_id() == old(self).fresh_id(),
            match r {
                Some(t) => {
                    &&& due(t, now)
                    &&& exists|i: int|
                        0 <= i < old(self).tasks().len() && old(self).tasks()[i] == t
                            && final(self).tasks() == old(self).tasks().remove(i)
                    &&& !final(self).has_task(t.id)
                    &&& t.id < final(self).fresh_id()
                },
                None => {
                    &&& final(self).tasks() == old(self).tasks()
                    &&& forall|i: int|
                        0 <= i < old(self).tasks().len() ==> !due(
                            #[trigger] old(self).tasks()[i],
                            now,
                        )
                },
            },
    {
        match self.find_due(now) {
            None => None,
            Some(i) => {
                let ghost pre = self.pending@;
                let t = self.pending.remove(i);
                proof {
                    let post = self.pending@;
                    assert(post =~= pre.remove(i as int));
                    assert forall|a: int, b: int| 0 <= a < b < post.len() implies (
                    #[trigger] post[a].id) != (#[trigger] post[b].id) by {
                        let a0: int = if a < i { a } else { a + 1 };
                        let b0: int = if b < i { b } else { b + 1 };
                        assert(post[a] == pre[a0]);
                        assert(post[b] == pre[b0]);
                        assert(pre[a0].id != pre[b0].id);
                    }
                    assert forall|a: int| 0 <= a < post.len() implies (#[trigger] post[a].id)
                        < self.next_id by {
                        let a0: int = if a < i { a } else { a + 1 };
                        assert(post[a] == pre[a0]);
                        assert(pre[a0].id < self.next_id);
                    }
                    assert(0 <= i < pre.len() && pre[i as int] == t && self.tasks() == pre.remove(
                        i as int,
                    ));
                    assert forall|a: int| 0 <= a < post.len() implies (#[trigger] post[a].id)
                        != t.id by {
                        let a0: int = if a < i { a } else { a + 1 };
                        assert(post[a] == pre[a0]);
                        if a0 < i {
                            assert(pre[a0].id != pre[i as int].id);
                        } else {
                            assert(pre[i as int].id != pre[a0].id);
                        }
                    }
                    assert(pre[i as int].id < old(self).fresh_id());
                }
                Some(t)
            },
        }
    }

    /// Settles a task that was handed out by `pop_due` and whose action has
    /// run: `Done` drops it for good; `RepeatAt(t)` re-enqueues it, under its
    /// old id, to fire at `t`.
    pub fn finish(&mut self, task: Task<A>, outcome: TaskOutcome)
        requires
            old(self).wf(),
            !old(self).has_task(task.id),
            task.id < old(self).fresh_id(),
        ensures
            final(self).wf(),
            final(self).fresh_id() == old(self).fresh_id(),
            match outcome {
                TaskOutcome::Done => final(self).tasks() == old(self).tasks(),
                TaskOutcome::RepeatAt(t) => final(self).tasks() == old(self).tasks().push(
                    Task { id: task.id, fire_time: t, action: task.action },
                ),
            },
    {
        match outcome {
            TaskOutcome::Done => {},
            TaskOutcome::RepeatAt(t) => {
                let ghost pre = self.pending@;
                let id = task.id;
                self.pending.push(Task { id, fire_time: t, action: task.action });
                proof {
                    let post = self.pending@;
                    assert(pre == old(self).tasks());
                    assert forall|a: int, b: int| 0 <= a < b < post.len() implies (
                    #[trigger] post[a].id) != (#[trigger] post[b].id) by {
                        if b < pre.len() {
                            assert(old(self).tasks()[a].id != old(self).tasks()[b].id);
                        } else {
                            assert(post[b].id == id);
                            assert(!(0 <= a < old(self).tasks().len() && old(self).tasks()[a].id
                                == id));
                        }
                    }
                    assert forall|a: int| 0 <= a < post.len() implies (#[trigger] post[a].id)
                        < self.next_id by {
                        if a < pre.len() {
                            assert(old(self).tasks()[a].id < old(self).fresh_id());
                        }
                    }
                }
            },
        }
    }
}

/// A task enqueued at `add_time` with delay `delay_ms` has its fire time at
/// `add_time + delay_ms` (the `add_task` contract), and `pop_due` hands a
/// task out only when it is due; so the task fires at or after
/// `add_time + delay_ms`, never before.
pub proof fn lemma_task_fires_no_earlier<A>(t: Task<A>, add_time: u64, delay_ms: u64, fire_now: u64)
    requires
        t.fire_time == add_time + delay_ms,
        due(t, fire_now),
    ensures
        fire_now >= add_time + delay_ms,
{
}

/// A task re-enqueued for `RepeatAt(at)` has its fire time at `at` (the
/// `finish` contract), so it fires again at or after `at`, never before.
pub proof fn lemma_repeat_fires_no_earlier<A>(t: Task<A>, at: u64, fire_now: u64)
    requires
        t.fire_time == at,
        due(t, fire_now),
    ensures
        fire_now >= at,
{
}

/// A task settled with `Done` is gone: its id is pending nowhere, and any
/// task `pop_due` can still hand out (a pending, due one) is a different
/// task. It is never invoked again.
pub proof fn lemma_done_task_never_fires<A>(s: Scheduler<A>, done_id: u64, t: Task<A>, i: int)
    requires
        !s.has_task(done_id),
        0 <= i < s.tasks().len(),
        s.tasks()[i] == t,
    ensures
        t.id != done_id,
{
}

} // verus!
