//! The decisions of the runtime loop: which task runs on which slot, which waits, and what
//! the driving thread does with each message.
//!
//! The loop itself (waiting on the channel, spawning, running blocking work) lives with the
//! caller; it hands every message to [`Scheduler::handle`] and performs the [`Action`] that
//! comes back. Tasks and reply channels are known here by the tickets the caller gave them.

use crate::error::{JlrsError, JlrsResult};
use crate::pool::{all_slots, StackPool};
use std::collections::VecDeque;
use vstd::prelude::*;

verus! {

/// What a message asks of the runtime.
#[derive(Clone, Copy, Debug, PartialEq, Eq, Structural)]
pub enum MessageInner {
    /// Run the async task with this ticket.
    Task(u64),
    /// Run the blocking task with this ticket, inline.
    BlockingTask(u64),
    /// Include the file that belongs to this ticket, inline.
    Include(u64),
    /// Turn colored error messages on or off, inline; the ticket names the reply channel.
    ErrorColor(bool, u64),
    /// The task on this slot has finished.
    Complete(usize),
}

/// The message type of the runtime's channel.
#[derive(Clone, Copy, Debug, PartialEq, Eq, Structural)]
pub struct Message {
    inner: MessageInner,
}

impl MessageInner {
    /// Wraps the request in a message.
    pub fn wrap(self) -> (m: Message)
        ensures
            m.inner() == self,
    {
        Message { inner: self }
    }
}

impl Message {
    /// The request that the message carries.
    pub closed spec fn inner(&self) -> MessageInner {
        self.inner
    }

    /// The request that the message carries.
    pub fn request(&self) -> (r: MessageInner)
        ensures
            r == self.inner(),
    {
        self.inner
    }
}

/// What the driving thread does after a message.
#[derive(Clone, Copy, Debug, PartialEq, Eq, Structural)]
pub enum Action {
    /// Start the task on the slot; report `Complete(slot)` when it is done.
    Start { task: u64, slot: usize },
    /// No slot is free: the task waits its turn.
    Queued { task: u64 },
    /// The slot is free again and nothing waits for it.
    Released { slot: usize },
    /// Run the blocking task now, on the base stack, before waiting again.
    RunBlocking { ticket: u64 },
    /// Include the file now, on the base stack, and reply.
    Include { ticket: u64 },
    /// Set the error color now and reply.
    SetErrorColor { enable: bool, ticket: u64 },
    /// The message named a slot that runs nothing: nothing to do.
    Ignored,
}

/// The abstract state of the scheduler.
pub struct SchedulerModel {
    /// The free slots, the next one to be lent first.
    pub free: Seq<usize>,
    /// For each slot, the task that runs on it.
    pub running: Seq<Option<u64>>,
    /// The tasks that wait for a slot, oldest first.
    pub pending: Seq<u64>,
}

/// A scheduler with `n` slots, all free, and nothing running or waiting.
pub open spec fn fresh(n: nat) -> SchedulerModel {
    SchedulerModel {
        free: all_slots(n),
        running: Seq::new(n, |i: int| None::<u64>),
        pending: Seq::empty(),
    }
}

/// The invariant of the scheduler: a slot is free exactly when it runs nothing, no slot is
/// free twice, and a task waits only while every slot is lent.
pub open spec fn sched_wf(s: SchedulerModel) -> bool {
    &&& forall|i: int| 0 <= i < s.free.len() ==> #[trigger] s.free[i] < s.running.len()
    &&& s.free.no_duplicates()
    &&& forall|i: int| 0 <= i < s.running.len() ==> (#[trigger] s.running[i] is None <==> s.free.contains(i as usize))
    &&& s.pending.len() > 0 ==> s.free.len() == 0
}

/// The message reports the end of a task that runs on its slot.
pub open spec fn completes_running(s: SchedulerModel, slot: usize) -> bool {
    slot < s.running.len() && s.running[slot as int] is Some
}

/// The state after a message.
pub open spec fn after_message(s: SchedulerModel, m: MessageInner) -> SchedulerModel {
    match m {
        MessageInner::Task(t) => if s.free.len() > 0 {
            SchedulerModel {
                free: s.free.drop_first(),
                running: s.running.update(s.free[0] as int, Some(t)),
                pending: s.pending,
            }
        } else {
            SchedulerModel { free: s.free, running: s.running, pending: s.pending.push(t) }
        },
        MessageInner::Complete(slot) => if !completes_running(s, slot) {
            s
        } else if s.pending.len() > 0 {
            SchedulerModel {
                free: s.free,
                running: s.running.update(slot as int, Some(s.pending[0])),
                pending: s.pending.drop_first(),
            }
        } else {
            SchedulerModel {
                free: seq![slot] + s.free,
                running: s.running.update(slot as int, None),
                pending: s.pending,
            }
        },
        _ => s,
    }
}

/// The action after a message.
pub open spec fn action_for(s: SchedulerModel, m: MessageInner) -> Action {
    match m {
        MessageInner::Task(t) => if s.free.len() > 0 {
            Action::Start { task: t, slot: s.free[0] }
        } else {
            Action::Queued { task: t }
        },
        MessageInner::Complete(slot) => if !completes_running(s, slot) {
            Action::Ignored
        } else if s.pending.len() > 0 {
            Action::Start { task: s.pending[0], slot }
        } else {
            Action::Released { slot }
        },
        MessageInner::BlockingTask(t) => Action::RunBlocking { ticket: t },
        MessageInner::Include(t) => Action::Include { ticket: t },
        MessageInner::ErrorColor(enable, t) => Action::SetErrorColor { enable, ticket: t },
    }
}

/// The tasks that run, in slot order.
pub open spec fn running_tasks_of(s: Seq<Option<u64>>) -> Seq<u64>
    decreases s.len(),
{
    if s.len() == 0 {
        Seq::empty()
    } else {
        let rest = running_tasks_of(s.drop_last());
        match s.last() {
            Some(t) => rest.push(t),
            None => rest,
        }
    }
}

/// The state after the tasks were submitted one after another.
pub open spec fn after_submitting(s: SchedulerModel, tasks: Seq<u64>) -> SchedulerModel
    decreases tasks.len(),
{
    if tasks.len() == 0 {
        s
    } else {
        after_message(after_submitting(s, tasks.drop_last()), MessageInner::Task(tasks.last()))
    }
}

proof fn lemma_first_submissions(n: nat, tasks: Seq<u64>, k: nat)
    requires
        k <= n <= usize::MAX,
        k <= tasks.len(),
    ensures
        ({
            let s = after_submitting(fresh(n), tasks.take(k as int));
            &&& s.free =~= Seq::new((n - k) as nat, |i: int| (i + k) as usize)
            &&& s.running =~= Seq::new(n, |j: int| if j < k { Some(tasks[j]) } else { None::<u64> })
            &&& s.pending =~= Seq::<u64>::empty()
        }),
    decreases k,
{
    let s = after_submitting(fresh(n), tasks.take(k as int));
    if k == 0 {
        assert(tasks.take(0) =~= Seq::<u64>::empty());
        assert(s == fresh(n));
        assert(s.free =~= Seq::new((n - k) as nat, |i: int| (i + k) as usize));
        assert(s.running =~= Seq::new(n, |j: int| if j < k { Some(tasks[j]) } else { None::<u64> }));
    } else {
        lemma_first_submissions(n, tasks, (k - 1) as nat);
        let prev = after_submitting(fresh(n), tasks.take(k - 1));
        assert(tasks.take(k as int).drop_last() =~= tasks.take(k - 1));
        assert(tasks.take(k as int).last() == tasks[k - 1]);
        assert(prev.free.len() > 0);
        assert(prev.free[0] == (k - 1) as usize);
        assert(s == after_message(prev, MessageInner::Task(tasks[k - 1])));
        assert(s.free =~= Seq::new((n - k) as nat, |i: int| (i + k) as usize));
        assert(s.running =~= Seq::new(n, |j: int| if j < k { Some(tasks[j]) } else { None::<u64> }));
    }
}

/// With `n` slots, `n + 1` submissions leave every slot lent, slot `i` running the `i`-th task,
/// and exactly one task, the last, waiting. When any running task then completes, its slot goes
/// straight to the waiting task: the free list stays empty throughout.
pub proof fn law_overflow_task_takes_freed_slot(n: nat, tasks: Seq<u64>, slot: usize)
    requires
        1 <= n <= usize::MAX,
        tasks.len() == n + 1,
        slot < n,
    ensures
        ({
            let s = after_submitting(fresh(n), tasks);
            let done = after_message(s, MessageInner::Complete(slot));
            &&& s.pending == seq![tasks[n as int]]
            &&& s.free.len() == 0
            &&& forall|i: int| 0 <= i < n ==> #[trigger] s.running[i] == Some(tasks[i])
            &&& action_for(s, MessageInner::Complete(slot)) == (Action::Start { task: tasks[n as int], slot })
            &&& done.pending.len() == 0
            &&& done.free.len() == 0
            &&& done.running[slot as int] == Some(tasks[n as int])
        }),
{
    lemma_first_submissions(n, tasks, n);
    assert(tasks.drop_last() =~= tasks.take(n as int));
    let s = after_submitting(fresh(n), tasks);
    assert(s.pending =~= seq![tasks[n as int]]);
}

/// A sequence of distinct slots below `n` has at most `n` of them.
proof fn lemma_distinct_below(s: Seq<usize>, n: nat)
    requires
        s.no_duplicates(),
        forall|i: int| 0 <= i < s.len() ==> #[trigger] s[i] < n,
    ensures
        s.len() <= n,
    decreases n,
{
    if n == 0 {
        if s.len() > 0 {
            assert(s[0] < n);
        }
    } else {
        let top = (n - 1) as usize;
        if s.contains(top) {
            let k = choose|k: int| 0 <= k < s.len() && s[k] == top;
            let t = s.remove(k);
            assert forall|i: int| 0 <= i < t.len() implies #[trigger] t[i] < (n - 1) as nat by {
                let si = if i < k { i } else { i + 1 };
                assert(t[i] == s[si]);
                assert(s[si] < n);
            }
            assert forall|i: int, j: int| 0 <= i < t.len() && 0 <= j < t.len() && i != j implies t[i]
                != t[j] by {
                let si = if i < k { i } else { i + 1 };
                let sj = if j < k { j } else { j + 1 };
                assert(t[i] == s[si]);
                assert(t[j] == s[sj]);
            }
            lemma_distinct_below(t, (n - 1) as nat);
        } else {
            assert forall|i: int| 0 <= i < s.len() implies #[trigger] s[i] < (n - 1) as nat by {
                assert(s[i] < n);
                assert(s[i] != top);
            }
            lemma_distinct_below(s, (n - 1) as nat);
        }
    }
}

/// The host engine needs at least this many threads for the scheduler to run.
pub const MIN_ENGINE_THREADS: usize = 3;

/// Relies on `num_cpus::get`: the number of logical CPUs this process may use, which its
/// documentation promises is at least one.
#[verifier::external_body]
fn available_parallelism() -> (n: usize)
    ensures
        n >= 1,
{
    num_cpus::get()
}

/// A configured count, where zero asks for one per available CPU.
pub fn count_or_parallelism(configured: usize) -> (n: usize)
    ensures
        n >= 1,
        configured > 0 ==> n == configured,
{
    if configured == 0 {
        available_parallelism()
    } else {
        configured
    }
}

/// Whether the runtime may start: it must not have been started before, and the engine
/// must run on at least [`MIN_ENGINE_THREADS`] threads.
pub fn check_startup(already_initialized: bool, engine_threads: usize) -> (r: JlrsResult<()>)
    ensures
        already_initialized ==> r == Err::<(), JlrsError>(JlrsError::AlreadyInitialized),
        !already_initialized && engine_threads < MIN_ENGINE_THREADS ==> r == Err::<(), JlrsError>(
            JlrsError::MoreThreadsRequired,
        ),
        !already_initialized && engine_threads >= MIN_ENGINE_THREADS ==> r is Ok,
{
    if already_initialized {
        Err(JlrsError::AlreadyInitialized)
    } else if engine_threads < MIN_ENGINE_THREADS {
        Err(JlrsError::MoreThreadsRequired)
    } else {
        Ok(())
    }
}

/// The scheduler's state: the slot pool, what runs on each slot, and the queue of waiting tasks.
pub struct Scheduler {
    pool: StackPool,
    running: Vec<Option<u64>>,
    pending: VecDeque<u64>,
    n_running: usize,
}

impl Scheduler {
    /// The scheduler as free slots, slot table and queue.
    pub closed spec fn view(&self) -> SchedulerModel {
        SchedulerModel {
            free: self.pool.free_slots(),
            running: self.running@,
            pending: self.pending@,
        }
    }

    /// The pool agrees with the slot table, the counter of running tasks is exact, and the
    /// state meets the scheduler's invariant.
    pub closed spec fn wf(&self) -> bool {
        &&& self.pool.wf()
        &&& self.pool.size() == self.running@.len()
        &&& self.n_running + self.pool.free_slots().len() == self.running@.len()
        &&& sched_wf(self@)
    }

    /// A well-formed scheduler meets the invariant of its model.
    pub proof fn lemma_wf_model(&self)
        requires
            self.wf(),
        ensures
            sched_wf(self@),
    {
    }

    /// A scheduler with `n_slots` slots, or one slot when `n_slots` is zero.
    pub fn new(n_slots: usize) -> (s: Scheduler)
        ensures
            s.wf(),
            s@ == fresh(if n_slots == 0 { 1 } else { n_slots as nat }),
    {
        let n: usize = if n_slots == 0 { 1 } else { n_slots };
        let pool = StackPool::new(n);
        let mut running: Vec<Option<u64>> = Vec::new();
        let mut i: usize = 0;
        while i < n
            invariant
                i <= n,
                running@ == Seq::new(i as nat, |j: int| None::<u64>),
            decreases n - i,
        {
            running.push(None);
            i += 1;
            proof {
                assert(running@ =~= Seq::new(i as nat, |j: int| None::<u64>));
            }
        }
        let s = Scheduler { pool, running, pending: VecDeque::new(), n_running: 0 };
        proof {
            let m = s@;
            assert forall|k: int| 0 <= k < m.running.len() implies (#[trigger] m.running[k] is None
                <==> m.free.contains(k as usize)) by {
                assert(m.free[k] == k as usize);
            }
            assert(m.pending =~= Seq::<u64>::empty());
        }
        s
    }

    /// The number of slots.
    pub fn n_slots(&self) -> (n: usize)
        requires
            self.wf(),
        ensures
            n == self@.running.len(),
    {
        self.running.len()
    }

    /// The number of tasks that hold a slot.
    pub fn n_running(&self) -> (n: usize)
        requires
            self.wf(),
        ensures
            n == self@.running.len() - self@.free.len(),
    {
        self.n_running
    }

    /// The number of tasks that wait for a slot.
    pub fn n_pending(&self) -> (n: usize)
        requires
            self.wf(),
        ensures
            n == self@.pending.len(),
    {
        self.pending.len()
    }

    /// What runs on `slot`, if anything.
    pub fn task_on(&self, slot: usize) -> (r: Option<u64>)
        requires
            self.wf(),
        ensures
            r == (if slot < self@.running.len() {
                self@.running[slot as int]
            } else {
                None
            }),
    {
        if slot < self.running.len() {
            self.running[slot]
        } else {
            None
        }
    }

    /// How long the loop waits for the next message: the housekeeping interval while a task
    /// runs, and, when nothing runs, as long as the channel allows (`u32::MAX` milliseconds).
    pub fn wait_time_ms(&self, recv_timeout_ms: u64) -> (ms: u64)
        requires
            self.wf(),
        ensures
            ms == if self@.free.len() < self@.running.len() {
                recv_timeout_ms
            } else {
                u32::MAX as u64
            },
    {
        if self.n_running > 0 {
            recv_timeout_ms
        } else {
            u32::MAX as u64
        }
    }

    /// The tasks that still run, in slot order: when the channel closes, the loop awaits each
    /// of them before it tears the engine down.
    pub fn running_tasks(&self) -> (r: Vec<u64>)
        requires
            self.wf(),
        ensures
            r@ == running_tasks_of(self@.running),
    {
        let mut r: Vec<u64> = Vec::new();
        let mut i: usize = 0;
        while i < self.running.len()
            invariant
                i <= self.running@.len(),
                r@ == running_tasks_of(self.running@.subrange(0, i as int)),
            decreases self.running@.len() - i,
        {
            proof {
                let s = self.running@.subrange(0, i as int + 1);
                assert(s.drop_last() =~= self.running@.subrange(0, i as int));
            }
            match self.running[i] {
                Some(t) => r.push(t),
                None => {},
            }
            i += 1;
        }
        proof {
            assert(self.running@.subrange(0, i as int) =~= self.running@);
        }
        r
    }

    /// Decides what a message asks of the driving thread, and updates the slot table and the
    /// queue: a new task takes the first free slot or joins the queue; a finished task hands
    /// its slot straight to the oldest waiting task, or back to the pool.
    pub fn handle(&mut self, msg: Message) -> (a: Action)
        requires
            old(self).wf(),
        ensures
            final(self).wf(),
            final(self)@ == after_message(old(self)@, msg.inner()),
            a == action_for(old(self)@, msg.inner()),
    {
        let ghost s = self@;
        let n_slots = self.running.len();
        match msg.request() {
            MessageInner::Task(t) => {
                match self.pool.acquire() {
                    Some(slot) => {
                        proof {
                            assert(s.free.contains(s.free[0]));
                        }
                        self.running.set(slot, Some(t));
                        self.n_running = self.n_running + 1;
                        proof {
                            let m = self@;
                            assert(m.running =~= s.running.update(slot as int, Some(t)));
                            assert forall|i: int| 0 <= i < m.running.len() implies (
                            #[trigger] m.running[i] is None <==> m.free.contains(i as usize)) by {
                                if m.free.contains(i as usize) {
                                    let j = choose|j: int| 0 <= j < m.free.len() && m.free[j] == i as usize;
                                    assert(s.free[j + 1] == i as usize);
                                    assert(s.free.contains(i as usize));
                                }
                                if i != slot as int && s.free.contains(i as usize) {
                                    let j = choose|j: int| 0 <= j < s.free.len() && s.free[j] == i as usize;
                                    assert(s.free[0] == slot);
                                    assert(i < n_slots);
                                    assert(i as usize != slot);
                                    assert(j != 0);
                                    assert(m.free[j - 1] == i as usize);
                                }
                            }
                        }
                        Action::Start { task: t, slot }
                    },
                    None => {
                        self.pending.push_back(t);
                        Action::Queued { task: t }
                    },
                }
            },
            MessageInner::Complete(slot) => {
                if slot >= self.running.len() || self.running[slot].is_none() {
                    return Action::Ignored;
                }
                proof {
                    assert(!s.free.contains(slot));
                }
                match self.pending.pop_front() {
                    Some(t) => {
                        self.running.set(slot, Some(t));
                        proof {
                            assert(self@.pending =~= s.pending.drop_first());
                            assert(self@.running =~= s.running.update(slot as int, Some(t)));
                        }
                        Action::Start { task: t, slot }
                    },
                    None => {
                        proof {
                            lemma_distinct_below(s.free.push(slot), s.running.len());
                        }
                        self.pool.release(slot);
                        self.running.set(slot, None);
                        self.n_running = self.n_running - 1;
                        proof {
                            let m = self@;
                            assert(m.running =~= s.running.update(slot as int, None));
                            assert forall|i: int| 0 <= i < m.running.len() implies (
                            #[trigger] m.running[i] is None <==> m.free.contains(i as usize)) by {
                                if m.free.contains(i as usize) && i != slot as int {
                                    let j = choose|j: int| 0 <= j < m.free.len() && m.free[j] == i as usize;
                                    assert(s.free[j - 1] == i as usize);
                                }
                                if i != slot as int && s.free.contains(i as usize) {
                                    let j = choose|j: int| 0 <= j < s.free.len() && s.free[j] == i as usize;
                                    assert(m.free[j + 1] == i as usize);
                                }
                                if i == slot as int {
                                    assert(m.free[0] == slot);
                                }
                            }
                        }
                        Action::Released { slot }
                    },
                }
            },
            MessageInner::BlockingTask(t) => Action::RunBlocking { ticket: t },
            MessageInner::Include(t) => Action::Include { ticket: t },
            MessageInner::ErrorColor(enable, t) => Action::SetErrorColor { enable, ticket: t },
        }
    }
}

} // verus!
