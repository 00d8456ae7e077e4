use vstd::prelude::*;
use std::collections::VecDeque;
use crate::error::KernelError;

verus! {

/// Where a task stands in its lifecycle.
#[derive(Debug, Clone, Copy, PartialEq, Eq)]
pub enum TaskState<T> {
    /// Runnable, queued or running.
    Ready,
    /// Waiting for a wake-up (a timer, a channel, a join).
    Suspended,
    /// Returned with its result, kept for joiners.
    Completed(T),
    /// Cancelled by shutdown before it completed.
    Cancelled,
    /// Stopped by a fault in its own computation; sibling tasks go on.
    Panicked,
}

/// What a worker reports after driving a task until it stops.
#[derive(Debug, Clone, Copy, PartialEq, Eq)]
pub enum TaskEvent<T> {
    /// It gave up the thread but can go on at once.
    Yielded,
    /// It waits for a wake-up.
    Suspended,
    /// It returned a result.
    Returned(T),
    /// It failed.
    Panicked,
}

/// The state a task is in after `ev`; a task that has finished (completed,
/// cancelled or failed) keeps its state.
pub open spec fn after_event<T>(st: TaskState<T>, ev: TaskEvent<T>) -> TaskState<T> {
    if is_finished(st) {
        st
    } else {
        match ev {
            TaskEvent::Yielded => TaskState::Ready,
            TaskEvent::Suspended => TaskState::Suspended,
            TaskEvent::Returned(v) => TaskState::Completed(v),
            TaskEvent::Panicked => TaskState::Panicked,
        }
    }
}

pub open spec fn is_finished<T>(st: TaskState<T>) -> bool {
    st is Completed || st is Cancelled || st is Panicked
}

/// What shutdown makes of a task: outstanding tasks are cancelled.
pub open spec fn cancel_state<T>(st: TaskState<T>) -> TaskState<T> {
    if is_finished(st) {
        st
    } else {
        TaskState::Cancelled
    }
}

/// What a join on a task in state `st` gives: `Ok(None)` while it has not
/// finished (the joiner waits), its result once completed.
pub open spec fn join_result<T>(st: TaskState<T>) -> Result<Option<T>, KernelError> {
    match st {
        TaskState::Completed(v) => Ok(Some(v)),
        TaskState::Cancelled => Err(KernelError::TaskCancelled),
        TaskState::Panicked => Err(KernelError::TaskPanicked),
        _ => Ok(None),
    }
}

fn is_ready<T>(st: &TaskState<T>) -> (r: bool)
    ensures
        r == (*st is Ready),
{
    match st {
        TaskState::Ready => true,
        _ => false,
    }
}

/// The task table, the run queue of cooperative tasks and the queue of the
/// blocking pool. Task ids are indices into the table.
pub struct Scheduler<T> {
    tasks: Vec<TaskState<T>>,
    blocking: Vec<bool>,
    run_queue: VecDeque<u64>,
    blocking_queue: VecDeque<u64>,
    workers: usize,
    max_blocking: usize,
    active_blocking: usize,
    shutting_down: bool,
}

impl<T: Copy> Scheduler<T> {
    pub closed spec fn tasks(&self) -> Seq<TaskState<T>> {
        self.tasks@
    }

    pub closed spec fn is_blocking(&self, id: int) -> bool {
        self.blocking@[id]
    }

    pub closed spec fn run_queue(&self) -> Seq<u64> {
        self.run_queue@
    }

    pub closed spec fn blocking_queue(&self) -> Seq<u64> {
        self.blocking_queue@
    }

    pub closed spec fn workers_spec(&self) -> nat {
        self.workers as nat
    }

    pub closed spec fn max_blocking_spec(&self) -> nat {
        self.max_blocking as nat
    }

    pub closed spec fn active_blocking(&self) -> nat {
        self.active_blocking as nat
    }

    pub closed spec fn shutting_down(&self) -> bool {
        self.shutting_down
    }

    pub closed spec fn wf(&self) -> bool {
        &&& self.blocking@.len() == self.tasks@.len()
        &&& self.tasks@.len() < u64::MAX
        &&& forall|k: int| 0 <= k < self.run_queue@.len() ==> #[trigger] self.run_queue@[k] < self.tasks@.len()
        &&& forall|k: int| 0 <= k < self.blocking_queue@.len() ==> #[trigger] self.blocking_queue@[k] < self.tasks@.len()
        &&& self.active_blocking <= self.max_blocking
        &&& self.workers >= 1
    }

    /// The table index of task `id`.
    fn slot(&self, id: u64) -> (i: usize)
        requires
            id < self.tasks@.len(),
        ensures
            i == id,
    {
        let n = self.tasks.len();
        assert(id < n);
        id as usize
    }

    /// The configuration is unchanged, and every task of `other` keeps its
    /// kind (blocking or cooperative).
    pub open spec fn same_config(&self, other: &Self) -> bool {
        &&& self.workers_spec() == other.workers_spec()
        &&& self.max_blocking_spec() == other.max_blocking_spec()
        &&& self.shutting_down() == other.shutting_down()
        &&& forall|i: int| 0 <= i < other.tasks().len() ==> #[trigger] self.is_blocking(i) == other.is_blocking(i)
    }

    /// A running scheduler with `workers` cooperative workers and at most
    /// `max_blocking` threads for blocking tasks; no task yet.
    pub fn new(workers: usize, max_blocking: usize) -> (r: Scheduler<T>)
        requires
            workers >= 1,
        ensures
            r.wf(),
            r.tasks() == Seq::<TaskState<T>>::empty(),
            r.run_queue() == Seq::<u64>::empty(),
            r.blocking_queue() == Seq::<u64>::empty(),
            r.workers_spec() == workers,
            r.max_blocking_spec() == max_blocking,
            r.active_blocking() == 0,
            !r.shutting_down(),
    {
        Scheduler {
            tasks: Vec::new(),
            blocking: Vec::new(),
            run_queue: VecDeque::new(),
            blocking_queue: VecDeque::new(),
            workers,
            max_blocking,
            active_blocking: 0,
            shutting_down: false,
        }
    }

    pub fn workers(&self) -> (r: usize)
        ensures
            r == self.workers_spec(),
    {
        self.workers
    }

    pub fn max_blocking(&self) -> (r: usize)
        ensures
            r == self.max_blocking_spec(),
    {
        self.max_blocking
    }

    /// Number of tasks ever spawned.
    pub fn task_count(&self) -> (r: usize)
        ensures
            r == self.tasks().len(),
    {
        self.tasks.len()
    }

    pub fn is_shutting_down(&self) -> (r: bool)
        ensures
            r == self.shutting_down(),
    {
        self.shutting_down
    }

    /// Creates a Ready task and queues it, on the run queue or, for a task
    /// marked `blocking`, on the blocking pool's queue. Refused once shutdown
    /// has begun.
    pub fn spawn_task(&mut self, blocking: bool) -> (r: Result<u64, KernelError>)
        requires
            old(self).wf(),
            old(self).shutting_down() || old(self).tasks().len() + 1 < u64::MAX,
        ensures
            final(self).wf(),
            final(self).same_config(old(self)),
            final(self).active_blocking() == old(self).active_blocking(),
            old(self).shutting_down() ==> r == Err::<u64, KernelError>(KernelError::SchedulerShuttingDown)
                && *final(self) == *old(self),
            !old(self).shutting_down() ==> {
                &&& r == Ok::<u64, KernelError>(old(self).tasks().len() as u64)
                &&& final(self).tasks() == old(self).tasks().push(TaskState::Ready)
                &&& final(self).is_blocking(old(self).tasks().len() as int) == blocking
                &&& !blocking ==> final(self).run_queue() == old(self).run_queue().push(old(self).tasks().len() as u64)
                    && final(self).blocking_queue() == old(self).blocking_queue()
                &&& blocking ==> final(self).blocking_queue() == old(self).blocking_queue().push(old(self).tasks().len() as u64)
                    && final(self).run_queue() == old(self).run_queue()
            },
    {
        if self.shutting_down {
            return Err(KernelError::SchedulerShuttingDown);
        }
        let id = self.tasks.len() as u64;
        self.tasks.push(TaskState::Ready);
        self.blocking.push(blocking);
        if blocking {
            self.blocking_queue.push_back(id);
        } else {
            self.run_queue.push_back(id);
        }
        Ok(id)
    }

    /// Creates a cooperative task; see `spawn_task`.
    pub fn spawn(&mut self) -> (r: Result<u64, KernelError>)
        requires
            old(self).wf(),
            old(self).shutting_down() || old(self).tasks().len() + 1 < u64::MAX,
        ensures
            final(self).wf(),
            final(self).same_config(old(self)),
            old(self).shutting_down() ==> r == Err::<u64, KernelError>(KernelError::SchedulerShuttingDown)
                && *final(self) == *old(self),
            !old(self).shutting_down() ==> {
                &&& r == Ok::<u64, KernelError>(old(self).tasks().len() as u64)
                &&& final(self).tasks() == old(self).tasks().push(TaskState::Ready)
                &&& !final(self).is_blocking(old(self).tasks().len() as int)
                &&& final(self).run_queue() == old(self).run_queue().push(old(self).tasks().len() as u64)
                &&& final(self).blocking_queue() == old(self).blocking_queue()
            },
    {
        self.spawn_task(false)
    }

    /// Pops the run queue, in FIFO order, up to the first task that is still
    /// Ready, and hands it to a worker; entries of tasks that finished or
    /// were suspended meanwhile are dropped. `None`: the worker waits.
    pub fn next_ready(&mut self) -> (r: Option<u64>)
        requires
            old(self).wf(),
        ensures
            final(self).wf(),
            final(self).same_config(old(self)),
            final(self).tasks() == old(self).tasks(),
            final(self).blocking_queue() == old(self).blocking_queue(),
            final(self).active_blocking() == old(self).active_blocking(),
            r is None ==> final(self).run_queue() == Seq::<u64>::empty() && forall|k: int|
                0 <= k < old(self).run_queue().len() ==> !(old(self).tasks()[#[trigger] old(self).run_queue()[k] as int] is Ready),
            r matches Some(id) ==> exists|k: int| {
                &&& 0 <= k < old(self).run_queue().len()
                &&& old(self).run_queue()[k] == id
                &&& old(self).tasks()[id as int] is Ready
                &&& final(self).run_queue() == old(self).run_queue().skip(k + 1)
                &&& forall|j: int| 0 <= j < k ==> !(old(self).tasks()[#[trigger] old(self).run_queue()[j] as int] is Ready)
            },
    {
        let ghost q0 = self.run_queue@;
        let ghost taken: int = 0;
        loop
            invariant
                self.wf(),
                self.same_config(old(self)),
                self.tasks@ == old(self).tasks@,
                self.blocking@ == old(self).blocking@,
                self.blocking_queue@ == old(self).blocking_queue@,
                self.active_blocking == old(self).active_blocking,
                q0 == old(self).run_queue@,
                0 <= taken <= q0.len(),
                self.run_queue@ == q0.skip(taken),
                forall|j: int| 0 <= j < taken ==> !(self.tasks@[#[trigger] q0[j] as int] is Ready),
            decreases self.run_queue@.len(),
        {
            match self.run_queue.pop_front() {
                Some(id) => {
                    assert(q0.skip(taken)[0] == q0[taken]);
                    assert(self.run_queue@ =~= q0.skip(taken + 1));
                    if is_ready(&self.tasks[self.slot(id)]) {
                        return Some(id);
                    }
                    proof {
                        taken = taken + 1;
                    }
                },
                None => {
                    assert(taken == q0.len());
                    return None;
                },
            }
        }
    }

    /// Applies what a worker reported of task `id` after running it: a
    /// yielded task goes to the back of its queue, a suspended one waits, a
    /// finished one keeps its outcome. A task that had already finished is
    /// left as it is.
    pub fn report(&mut self, id: u64, ev: TaskEvent<T>)
        requires
            old(self).wf(),
            id < old(self).tasks().len(),
        ensures
            final(self).wf(),
            final(self).same_config(old(self)),
            final(self).active_blocking() == old(self).active_blocking(),
            final(self).tasks() == old(self).tasks().update(id as int, after_event(old(self).tasks()[id as int], ev)),
            (ev is Yielded && !is_finished(old(self).tasks()[id as int])) ==> {
                &&& !old(self).is_blocking(id as int) ==> final(self).run_queue() == old(self).run_queue().push(id)
                    && final(self).blocking_queue() == old(self).blocking_queue()
                &&& old(self).is_blocking(id as int) ==> final(self).blocking_queue() == old(self).blocking_queue().push(id)
                    && final(self).run_queue() == old(self).run_queue()
            },
            !(ev is Yielded && !is_finished(old(self).tasks()[id as int])) ==> {
                &&& final(self).run_queue() == old(self).run_queue()
                &&& final(self).blocking_queue() == old(self).blocking_queue()
            },
    {
        let i = self.slot(id);
        let st = self.tasks[i];
        let finished = match st {
            TaskState::Completed(_) | TaskState::Cancelled | TaskState::Panicked => true,
            _ => false,
        };
        if finished {
            return;
        }
        let next = match ev {
            TaskEvent::Yielded => TaskState::Ready,
            TaskEvent::Suspended => TaskState::Suspended,
            TaskEvent::Returned(v) => TaskState::Completed(v),
            TaskEvent::Panicked => TaskState::Panicked,
        };
        self.tasks.set(i, next);
        if let TaskEvent::Yielded = ev {
            self.requeue(id);
        }
    }

    fn requeue(&mut self, id: u64)
        requires
            old(self).wf(),
            id < old(self).tasks().len(),
        ensures
            final(self).wf(),
            final(self).same_config(old(self)),
            final(self).active_blocking() == old(self).active_blocking(),
            final(self).tasks() == old(self).tasks(),
            !old(self).is_blocking(id as int) ==> final(self).run_queue() == old(self).run_queue().push(id)
                && final(self).blocking_queue() == old(self).blocking_queue(),
            old(self).is_blocking(id as int) ==> final(self).blocking_queue() == old(self).blocking_queue().push(id)
                && final(self).run_queue() == old(self).run_queue(),
    {
        if self.blocking[self.slot(id)] {
            self.blocking_queue.push_back(id);
        } else {
            self.run_queue.push_back(id);
        }
    }

    /// Wakes task `id` if it is suspended: it becomes Ready and is queued.
    /// Returns whether it was woken; any other task is left as it is.
    pub fn wake(&mut self, id: u64) -> (r: bool)
        requires
            old(self).wf(),
            id < old(self).tasks().len(),
        ensures
            final(self).wf(),
            final(self).same_config(old(self)),
            final(self).active_blocking() == old(self).active_blocking(),
            r == (old(self).tasks()[id as int] is Suspended),
            r ==> {
                &&& final(self).tasks() == old(self).tasks().update(id as int, TaskState::Ready)
                &&& !old(self).is_blocking(id as int) ==> final(self).run_queue() == old(self).run_queue().push(id)
                    && final(self).blocking_queue() == old(self).blocking_queue()
                &&& old(self).is_blocking(id as int) ==> final(self).blocking_queue() == old(self).blocking_queue().push(id)
                    && final(self).run_queue() == old(self).run_queue()
            },
            !r ==> *final(self) == *old(self),
    {
        let i = self.slot(id);
        if let TaskState::Suspended = self.tasks[i] {
            self.tasks.set(i, TaskState::Ready);
            self.requeue(id);
            true
        } else {
            false
        }
    }

    /// The outcome of joining task `id` now: its result once completed,
    /// `Ok(None)` while it is outstanding (the joiner waits), and the error
    /// of a cancelled or failed task. Reading leaves the result in place, so
    /// every later join gives it again.
    pub fn join(&self, id: u64) -> (r: Result<Option<T>, KernelError>)
        requires
            self.wf(),
            id < self.tasks().len(),
        ensures
            r == join_result(self.tasks()[id as int]),
    {
        match self.tasks[self.slot(id)] {
            TaskState::Completed(v) => Ok(Some(v)),
            TaskState::Cancelled => Err(KernelError::TaskCancelled),
            TaskState::Panicked => Err(KernelError::TaskPanicked),
            _ => Ok(None),
        }
    }

    /// The state of task `id`.
    pub fn state(&self, id: u64) -> (r: TaskState<T>)
        requires
            self.wf(),
            id < self.tasks().len(),
        ensures
            r == self.tasks()[id as int],
    {
        self.tasks[self.slot(id)]
    }

    /// Begins shutdown: from now on every spawn is refused. Tasks already
    /// queued may still run until `cancel_remaining`.
    pub fn shutdown(&mut self)
        requires
            old(self).wf(),
        ensures
            final(self).wf(),
            final(self).shutting_down(),
            forall|i: int| 0 <= i < old(self).tasks().len() ==> #[trigger] final(self).is_blocking(i) == old(self).is_blocking(i),
            final(self).tasks() == old(self).tasks(),
            final(self).run_queue() == old(self).run_queue(),
            final(self).blocking_queue() == old(self).blocking_queue(),
            final(self).workers_spec() == old(self).workers_spec(),
            final(self).max_blocking_spec() == old(self).max_blocking_spec(),
            final(self).active_blocking() == old(self).active_blocking(),
    {
        self.shutting_down = true;
    }

    /// Ends the grace period: every task that has not finished is
    /// cancelled, both queues are emptied, and the cancelled ids are
    /// returned, in id order, so that their joiners can be woken.
    pub fn cancel_remaining(&mut self) -> (r: Vec<u64>)
        requires
            old(self).wf(),
        ensures
            final(self).wf(),
            final(self).same_config(old(self)),
            final(self).active_blocking() == old(self).active_blocking(),
            final(self).tasks().len() == old(self).tasks().len(),
            forall|i: int| 0 <= i < old(self).tasks().len() ==> #[trigger] final(self).tasks()[i] == cancel_state(old(self).tasks()[i]),
            final(self).run_queue() == Seq::<u64>::empty(),
            final(self).blocking_queue() == Seq::<u64>::empty(),
            forall|k: int| 0 <= k < r@.len() ==> #[trigger] r@[k] < old(self).tasks().len() && !is_finished(old(self).tasks()[r@[k] as int]),
            forall|i: int| 0 <= i < old(self).tasks().len() && !is_finished(#[trigger] old(self).tasks()[i]) ==> r@.contains(i as u64),
            forall|a: int, b: int| 0 <= a < b < r@.len() ==> r@[a] < r@[b],
    {
        let mut cancelled: Vec<u64> = Vec::new();
        let mut i: usize = 0;
        while i < self.tasks.len()
            invariant
                self.wf(),
                self.same_config(old(self)),
                self.active_blocking == old(self).active_blocking,
                self.run_queue@ == old(self).run_queue@,
                self.blocking_queue@ == old(self).blocking_queue@,
                self.blocking@ == old(self).blocking@,
                self.tasks@.len() == old(self).tasks@.len(),
                i <= self.tasks@.len(),
                forall|j: int| 0 <= j < i ==> #[trigger] self.tasks@[j] == cancel_state(old(self).tasks@[j]),
                forall|j: int| i <= j < self.tasks@.len() ==> #[trigger] self.tasks@[j] == old(self).tasks@[j],
                forall|k: int| 0 <= k < cancelled@.len() ==> #[trigger] cancelled@[k] < i && !is_finished(old(self).tasks@[cancelled@[k] as int]),
                forall|j: int| 0 <= j < i && !is_finished(#[trigger] old(self).tasks@[j]) ==> cancelled@.contains(j as u64),
                forall|a: int, b: int| 0 <= a < b < cancelled@.len() ==> cancelled@[a] < cancelled@[b],
            decreases self.tasks@.len() - i,
        {
            let finished = match self.tasks[i] {
                TaskState::Completed(_) | TaskState::Cancelled | TaskState::Panicked => true,
                _ => false,
            };
            let ghost before = cancelled@;
            if !finished {
                self.tasks.set(i, TaskState::Cancelled);
                cancelled.push(i as u64);
                assert(cancelled@[cancelled@.len() - 1] == i as u64);
            }
            assert forall|j: int| 0 <= j <= i && !is_finished(#[trigger] old(self).tasks@[j]) implies cancelled@.contains(j as u64) by {
                if j < i {
                    let k = choose|k: int| 0 <= k < before.len() && before[k] == j as u64;
                    assert(cancelled@[k] == j as u64);
                }
            }
            i = i + 1;
        }
        self.run_queue.clear();
        self.blocking_queue.clear();
        cancelled
    }

    /// Hands a blocking task to a free thread of the blocking pool, if one is
    /// free: pops the blocking queue up to its first Ready task. When the pool
    /// is in full use nothing changes: the tasks keep waiting in the queue.
    pub fn next_blocking(&mut self) -> (r: Option<u64>)
        requires
            old(self).wf(),
        ensures
            final(self).wf(),
            final(self).same_config(old(self)),
            final(self).tasks() == old(self).tasks(),
            final(self).run_queue() == old(self).run_queue(),
            old(self).active_blocking() >= old(self).max_blocking_spec() ==> r is None && *final(self) == *old(self),
            r is None && old(self).active_blocking() < old(self).max_blocking_spec() ==> {
                &&& final(self).blocking_queue() == Seq::<u64>::empty()
                &&& final(self).active_blocking() == old(self).active_blocking()
                &&& forall|k: int| 0 <= k < old(self).blocking_queue().len()
                    ==> !(old(self).tasks()[#[trigger] old(self).blocking_queue()[k] as int] is Ready)
            },
            r matches Some(id) ==> {
                &&& old(self).active_blocking() < old(self).max_blocking_spec()
                &&& final(self).active_blocking() == old(self).active_blocking() + 1
                &&& old(self).tasks()[id as int] is Ready
                &&& exists|k: int| {
                    &&& 0 <= k < old(self).blocking_queue().len()
                    &&& old(self).blocking_queue()[k] == id
                    &&& final(self).blocking_queue() == old(self).blocking_queue().skip(k + 1)
                    &&& forall|j: int| 0 <= j < k ==> !(old(self).tasks()[#[trigger] old(self).blocking_queue()[j] as int] is Ready)
                }
            },
    {
        if self.active_blocking >= self.max_blocking {
            return None;
        }
        let ghost q0 = self.blocking_queue@;
        let ghost taken: int = 0;
        loop
            invariant
                self.wf(),
                self.same_config(old(self)),
                self.active_blocking < self.max_blocking,
                self.tasks@ == old(self).tasks@,
                self.blocking@ == old(self).blocking@,
                self.run_queue@ == old(self).run_queue@,
                self.active_blocking == old(self).active_blocking,
                q0 == old(self).blocking_queue@,
                0 <= taken <= q0.len(),
                self.blocking_queue@ == q0.skip(taken),
                forall|j: int| 0 <= j < taken ==> !(self.tasks@[#[trigger] q0[j] as int] is Ready),
            decreases self.blocking_queue@.len(),
        {
            match self.blocking_queue.pop_front() {
                Some(id) => {
                    assert(q0.skip(taken)[0] == q0[taken]);
                    assert(self.blocking_queue@ =~= q0.skip(taken + 1));
                    if is_ready(&self.tasks[self.slot(id)]) {
                        self.active_blocking = self.active_blocking + 1;
                        return Some(id);
                    }
                    proof {
                        taken = taken + 1;
                    }
                },
                None => {
                    assert(taken == q0.len());
                    return None;
                },
            }
        }
    }

    /// A thread of the blocking pool has stopped running its task and is free again.
    pub fn release_blocking(&mut self)
        requires
            old(self).wf(),
            old(self).active_blocking() > 0,
        ensures
            final(self).wf(),
            final(self).same_config(old(self)),
            final(self).tasks() == old(self).tasks(),
            final(self).run_queue() == old(self).run_queue(),
            final(self).blocking_queue() == old(self).blocking_queue(),
            final(self).active_blocking() == old(self).active_blocking() - 1,
    {
        self.active_blocking = self.active_blocking - 1;
    }
}

/// A completed task's result is read, not consumed: a join gives it, and no
/// later report, shutdown or wake-up changes it, so every later join gives
/// the same result again.
pub proof fn lemma_join_cached<T>(st: TaskState<T>, v: T, ev: TaskEvent<T>)
    requires
        st == TaskState::Completed(v),
    ensures
        join_result(st) == Ok::<Option<T>, KernelError>(Some(v)),
        join_result(after_event(st, ev)) == join_result(st),
        join_result(cancel_state(st)) == join_result(st),
        !(st is Suspended),
{
}

/// After the grace period of a shutdown every join completes: a task that
/// had not finished gives `TaskCancelled`, a finished one keeps its outcome.
pub proof fn lemma_shutdown_outcomes<T>(st: TaskState<T>)
    ensures
        join_result(cancel_state(st)) != Ok::<Option<T>, KernelError>(None),
        !is_finished(st) ==> join_result(cancel_state(st)) == Err::<Option<T>, KernelError>(
            KernelError::TaskCancelled,
        ),
        is_finished(st) ==> join_result(cancel_state(st)) == join_result(st),
{
}

/// A task that has not finished is joined with `Ok(None)` (the joiner
/// waits); once it returns `v` a join gives `Ok(Some(v))`, and whatever is
/// reported or cancelled afterwards, joins keep giving `v`.
pub proof fn lemma_join_after_return<T>(st: TaskState<T>, v: T, ev: TaskEvent<T>)
    requires
        !is_finished(st),
    ensures
        join_result(st) == Ok::<Option<T>, KernelError>(None),
        join_result(after_event(st, TaskEvent::Returned(v))) == Ok::<Option<T>, KernelError>(Some(v)),
        join_result(after_event(after_event(st, TaskEvent::Returned(v)), ev)) == Ok::<Option<T>, KernelError>(Some(v)),
        join_result(cancel_state(after_event(st, TaskEvent::Returned(v)))) == Ok::<Option<T>, KernelError>(Some(v)),
{
}

} // verus!
