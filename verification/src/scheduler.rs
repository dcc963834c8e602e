//! The bounded-concurrency task scheduler, modeled as a state machine: a
//! task is admitted only while a permit is free and no stop was signalled,
//! every terminal task is counted exactly once, and the progress readings
//! climb one by one to the batch total.
use vstd::prelude::*;

verus! {

/// Relies on num_cpus::get: the number of logical processors of this host,
/// which is always at least one.
#[verifier::external_body]
pub fn host_parallelism() -> (r: usize)
    ensures
        r >= 1,
{
    num_cpus::get()
}

/// The terminal result of one scheduled task.
pub enum TaskResult<T> {
    /// The work finished with a value.
    Success(T),
    /// The work finished with a failure message.
    Failed(String),
    /// The work did not finish within the configured timeout.
    Timeout,
    /// The task was never dispatched because the scheduler stopped.
    Cancelled,
}

/// What the awaited work of one task came back with.
pub enum WorkOutcome<T> {
    /// A value.
    Done(T),
    /// A failure message.
    Error(String),
    /// No answer within the configured timeout.
    TimedOut,
}

/// Scheduler-side record of one task.
pub struct TaskStatus {
    /// The task id.
    pub id: String,
    /// When the task entered the running state, in epoch milliseconds.
    pub started_at_ms: u64,
    /// When the task reached a terminal state, if it has.
    pub completed_at_ms: Option<u64>,
    /// Whether the task reached a terminal state.
    pub is_completed: bool,
    /// Whether the terminal state was a success.
    pub is_success: bool,
}

impl Clone for TaskStatus {
    fn clone(&self) -> (r: Self)
        ensures
            r == *self,
    {
        TaskStatus {
            id: self.id.clone(),
            started_at_ms: self.started_at_ms,
            completed_at_ms: self.completed_at_ms,
            is_completed: self.is_completed,
            is_success: self.is_success,
        }
    }
}

/// The scheduler configuration.
pub struct SchedulerConfig {
    /// Upper bound on simultaneously running tasks; at least one.
    pub max_concurrency: usize,
    /// Per-task timeout in milliseconds, if any.
    pub timeout_ms: Option<u64>,
    /// Whether the first non-success stops all not-yet-started tasks.
    pub fail_fast: bool,
    /// Whether diagnostic events are reported.
    pub verbose: bool,
}

impl SchedulerConfig {
    /// The default configuration: host parallelism, no timeout, no fail-fast.
    pub fn new_default() -> (r: Self)
        ensures
            r.max_concurrency >= 1,
            r.timeout_ms is None,
            !r.fail_fast,
            !r.verbose,
    {
        SchedulerConfig {
            max_concurrency: host_parallelism(),
            timeout_ms: None,
            fail_fast: false,
            verbose: false,
        }
    }
}

/// How many records have reached a terminal state.
pub open spec fn count_completed(s: Seq<TaskStatus>) -> nat
    decreases s.len(),
{
    if s.len() == 0 {
        0
    } else {
        count_completed(s.drop_last()) + (if s.last().is_completed {
            1nat
        } else {
            0nat
        })
    }
}

/// How many records have reached a successful terminal state.
pub open spec fn count_success(s: Seq<TaskStatus>) -> nat
    decreases s.len(),
{
    if s.len() == 0 {
        0
    } else {
        count_success(s.drop_last()) + (if s.last().is_completed && s.last().is_success {
            1nat
        } else {
            0nat
        })
    }
}

/// Some record reached a terminal state that is not a success.
pub open spec fn has_failure(s: Seq<TaskStatus>) -> bool {
    exists|i: int| 0 <= i < s.len() && (#[trigger] s[i]).is_completed && !s[i].is_success
}

proof fn lemma_counts_push(s: Seq<TaskStatus>, st: TaskStatus)
    ensures
        count_completed(s.push(st)) == count_completed(s) + (if st.is_completed {
            1nat
        } else {
            0nat
        }),
        count_success(s.push(st)) == count_success(s) + (if st.is_completed && st.is_success {
            1nat
        } else {
            0nat
        }),
{
    assert(s.push(st).drop_last() =~= s);
}

proof fn lemma_counts_update(s: Seq<TaskStatus>, i: int, st: TaskStatus)
    requires
        0 <= i < s.len(),
    ensures
        count_completed(s.update(i, st)) == count_completed(s) + (if st.is_completed {
            1nat
        } else {
            0nat
        }) - (if s[i].is_completed {
            1nat
        } else {
            0nat
        }),
        count_success(s.update(i, st)) == count_success(s) + (if st.is_completed && st.is_success {
            1nat
        } else {
            0nat
        }) - (if s[i].is_completed && s[i].is_success {
            1nat
        } else {
            0nat
        }),
    decreases s.len(),
{
    let s2 = s.update(i, st);
    if i == s.len() - 1 {
        assert(s2.drop_last() =~= s.drop_last());
        assert(s2.last() == st);
    } else {
        assert(s2.drop_last() =~= s.drop_last().update(i, st));
        assert(s2.last() == s.last());
        lemma_counts_update(s.drop_last(), i, st);
    }
}

proof fn lemma_count_completed_strict(s: Seq<TaskStatus>, i: int)
    requires
        0 <= i < s.len(),
        !s[i].is_completed,
    ensures
        count_completed(s) < s.len(),
    decreases s.len(),
{
    lemma_count_completed_le(s.drop_last());
    if i < s.len() - 1 {
        lemma_count_completed_strict(s.drop_last(), i);
    }
}

proof fn lemma_count_completed_le(s: Seq<TaskStatus>)
    ensures
        count_completed(s) <= s.len(),
        count_success(s) <= count_completed(s),
    decreases s.len(),
{
    if s.len() > 0 {
        lemma_count_completed_le(s.drop_last());
    }
}

/// The bounded-concurrency task scheduler.
pub struct AsyncTaskScheduler {
    /// The configuration of this scheduler.
    pub config: SchedulerConfig,
    /// One record per task that was admitted, in admission order.
    pub task_status: Vec<TaskStatus>,
    /// Whether dispatching further tasks was stopped.
    pub should_stop: bool,
    /// How many admitted tasks are still running.
    pub running_count: usize,
    /// How many tasks reached a terminal state.
    pub completed_count: usize,
    /// How many tasks succeeded.
    pub successful_count: usize,
    /// How many tasks failed or timed out.
    pub failed_count: usize,
    /// How many tasks were cancelled before dispatch.
    pub cancelled_count: usize,
    /// The cumulative terminal-task counts handed to the progress callback,
    /// in the order they were reported: one reading per task that reaches
    /// any terminal state, cancellation included.
    pub progress_log: Vec<usize>,
}

impl AsyncTaskScheduler {
    /// The scheduler's invariant: the running tasks never exceed the
    /// concurrency bound, the counters agree with the records, and under
    /// fail-fast any failure has raised the stop flag.
    pub open spec fn wf(self) -> bool {
        &&& self.config.max_concurrency >= 1
        &&& self.running_count as nat == self.task_status@.len() - count_completed(
            self.task_status@,
        )
        &&& self.running_count <= self.config.max_concurrency
        &&& self.completed_count as nat == count_completed(self.task_status@)
        &&& self.successful_count as nat == count_success(self.task_status@)
        &&& self.failed_count as nat == count_completed(self.task_status@) - count_success(
            self.task_status@,
        )
        &&& (self.config.fail_fast && has_failure(self.task_status@) ==> self.should_stop)
        &&& self.progress_log@.len() == self.completed_count + self.cancelled_count
        &&& forall|t: int| 0 <= t < self.progress_log@.len() ==> #[trigger] self.progress_log@[t]
            == t + 1
    }

    /// Creates a scheduler with no admitted task.
    pub fn new(config: SchedulerConfig) -> (r: Self)
        requires
            config.max_concurrency >= 1,
        ensures
            r.wf(),
            r.config == config,
            r.task_status@.len() == 0,
            !r.should_stop,
            r.completed_count == 0,
            r.cancelled_count == 0,
            r.progress_log@.len() == 0,
    {
        AsyncTaskScheduler {
            config,
            task_status: Vec::new(),
            should_stop: false,
            running_count: 0,
            completed_count: 0,
            successful_count: 0,
            failed_count: 0,
            cancelled_count: 0,
            progress_log: Vec::new(),
        }
    }

    /// Signals every not-yet-started task to be cancelled.
    pub fn stop_all(&mut self)
        requires
            old(self).wf(),
        ensures
            final(self).wf(),
            final(self).should_stop,
            final(self).task_status@ == old(self).task_status@,
            final(self).config == old(self).config,
    {
        self.should_stop = true;
    }

    /// Records that a task entered the running state, and returns its
    /// record index. A task may only start while a permit is free and no
    /// stop was signalled: with fail-fast on, no task starts after a
    /// failure.
    pub fn record_task_start(&mut self, task_id: String, now_ms: u64) -> (idx: usize)
        requires
            old(self).wf(),
            !old(self).should_stop,
            old(self).running_count < old(self).config.max_concurrency,
        ensures
            final(self).wf(),
            idx as int == old(self).task_status@.len(),
            final(self).task_status@.len() == old(self).task_status@.len() + 1,
            final(self).task_status@[idx as int].id@ == task_id@,
            !final(self).task_status@[idx as int].is_completed,
            final(self).task_status@[idx as int].started_at_ms == now_ms,
            forall|t: int|
                0 <= t < old(self).task_status@.len()
                    ==> final(self).task_status@[t] == old(self).task_status@[t],
            final(self).should_stop == old(self).should_stop,
            final(self).config == old(self).config,
            final(self).completed_count == old(self).completed_count,
            final(self).cancelled_count == old(self).cancelled_count,
            final(self).progress_log@ == old(self).progress_log@,
            final(self).running_count == old(self).running_count + 1,
    {
        let idx = self.task_status.len();
        let status = TaskStatus {
            id: task_id,
            started_at_ms: now_ms,
            completed_at_ms: None,
            is_completed: false,
            is_success: false,
        };
        proof {
            lemma_counts_push(self.task_status@, status);
        }
        self.task_status.push(status);
        self.running_count = self.running_count + 1;
        proof {
            assert forall|i: int|
                0 <= i < self.task_status@.len() && (#[trigger] self.task_status@[i]).is_completed
                    && !self.task_status@[i].is_success implies has_failure(
                old(self).task_status@,
            ) by {
                assert(old(self).task_status@[i] == self.task_status@[i]);
            }
        }
        idx
    }

    /// Records that a running task reached a terminal state, updates the
    /// counters, appends the new completed count to the progress log, and
    /// raises the stop flag on a non-success under fail-fast.
    pub fn record_task_completion(&mut self, idx: usize, is_success: bool, now_ms: u64)
        requires
            old(self).wf(),
            old(self).progress_log@.len() < usize::MAX,
            (idx as int) < old(self).task_status@.len(),
            !old(self).task_status@[idx as int].is_completed,
        ensures
            final(self).wf(),
            final(self).task_status@.len() == old(self).task_status@.len(),
            final(self).task_status@[idx as int].is_completed,
            final(self).task_status@[idx as int].is_success == is_success,
            final(self).task_status@[idx as int].id@ == old(self).task_status@[idx as int].id@,
            forall|t: int|
                0 <= t < old(self).task_status@.len() && t != idx as int
                    ==> final(self).task_status@[t] == old(self).task_status@[t],
            final(self).completed_count == old(self).completed_count + 1,
            final(self).running_count == old(self).running_count - 1,
            final(self).successful_count == old(self).successful_count + (if is_success {
                1int
            } else {
                0int
            }),
            final(self).progress_log@ == old(self).progress_log@.push(
                (old(self).progress_log@.len() + 1) as usize,
            ),
            final(self).cancelled_count == old(self).cancelled_count,
            final(self).should_stop == (old(self).should_stop || (old(self).config.fail_fast
                && !is_success)),
            final(self).config == old(self).config,
    {
        let n = self.task_status.len();
        proof {
            lemma_count_completed_le(self.task_status@);
            lemma_count_completed_strict(self.task_status@, idx as int);
            assert(self.task_status@.len() == n as nat);
        }
        let old_status = &self.task_status[idx];
        let new_status = TaskStatus {
            id: old_status.id.clone(),
            started_at_ms: old_status.started_at_ms,
            completed_at_ms: Some(now_ms),
            is_completed: true,
            is_success,
        };
        proof {
            lemma_counts_update(self.task_status@, idx as int, new_status);
        }
        self.task_status.set(idx, new_status);
        self.completed_count = self.completed_count + 1;
        if is_success {
            self.successful_count = self.successful_count + 1;
        } else {
            self.failed_count = self.failed_count + 1;
        }
        let reading = self.progress_log.len() + 1;
        self.progress_log.push(reading);
        self.running_count = self.running_count - 1;
        if self.config.fail_fast && !is_success {
            self.should_stop = true;
        }
        proof {
            lemma_count_completed_le(self.task_status@);
            if self.config.fail_fast && has_failure(self.task_status@) && !self.should_stop {
                let i = choose|i: int|
                    0 <= i < self.task_status@.len() && (#[trigger] self.task_status@[i]).is_completed
                        && !self.task_status@[i].is_success;
                assert(i != idx as int);
                assert(old(self).task_status@[i] == self.task_status@[i]);
                assert(has_failure(old(self).task_status@));
            }
        }
    }

    /// Runs one task to its terminal state: cancelled when a stop was
    /// signalled (so, under fail-fast, after any failure), and otherwise
    /// the result that the awaited work came back with.
    pub fn execute_task<T>(&mut self, task_id: String, outcome: WorkOutcome<T>, now_ms: u64) -> (r:
        TaskResult<T>)
        requires
            old(self).wf(),
            old(self).progress_log@.len() < usize::MAX,
            old(self).running_count < old(self).config.max_concurrency,
            outcome is TimedOut ==> old(self).config.timeout_ms is Some,
        ensures
            final(self).wf(),
            final(self).config == old(self).config,
            old(self).should_stop ==> r is Cancelled
                && final(self).task_status@ == old(self).task_status@
                && final(self).completed_count == old(self).completed_count
                && final(self).cancelled_count == old(self).cancelled_count + 1
                && final(self).should_stop,
            old(self).config.fail_fast && has_failure(old(self).task_status@) ==> r is Cancelled,
            final(self).progress_log@ == old(self).progress_log@.push(
                (old(self).progress_log@.len() + 1) as usize,
            ),
            !old(self).should_stop ==> {
                &&& (match outcome {
                    WorkOutcome::Done(v) => r == TaskResult::<T>::Success(v),
                    WorkOutcome::Error(m) => r == TaskResult::<T>::Failed(m),
                    WorkOutcome::TimedOut => r is Timeout,
                })
                &&& final(self).task_status@.len() == old(self).task_status@.len() + 1
                &&& final(self).task_status@.last().id@ == task_id@
                &&& final(self).task_status@.last().is_completed
                &&& final(self).task_status@.last().is_success == (outcome is Done)
                &&& forall|t: int|
                    0 <= t < old(self).task_status@.len()
                        ==> final(self).task_status@[t] == old(self).task_status@[t]
                &&& final(self).completed_count == old(self).completed_count + 1
                &&& final(self).should_stop == (old(self).should_stop
                    || (old(self).config.fail_fast && !(outcome is Done)))
                &&& final(self).running_count == old(self).running_count
            },
    {
        if self.should_stop {
            // a cancellation is a terminal state too: report it
            let reading = self.progress_log.len() + 1;
            self.progress_log.push(reading);
            self.cancelled_count = self.cancelled_count + 1;
            return TaskResult::Cancelled;
        }
        let idx = self.record_task_start(task_id, now_ms);
        let (is_success, r) = match outcome {
            WorkOutcome::Done(v) => (true, TaskResult::Success(v)),
            WorkOutcome::Error(m) => (false, TaskResult::Failed(m)),
            WorkOutcome::TimedOut => (false, TaskResult::Timeout),
        };
        self.record_task_completion(idx, is_success, now_ms);
        r
    }
}

/// Whether, under the given fail-fast setting, dispatch has stopped before
/// batch position `i`: some earlier task's work did not come back a success.
pub open spec fn batch_stopped_before<T>(
    fail_fast: bool,
    tasks: Seq<(String, WorkOutcome<T>)>,
    i: int,
) -> bool {
    fail_fast && exists|j: int| 0 <= j < i && !((#[trigger] tasks[j]).1 is Done)
}

/// The result owed to batch position `i` when tasks are dispatched in
/// submission order: cancelled once dispatch has stopped, and otherwise the
/// mapping of the work's own outcome.
pub open spec fn expected_batch_result<T>(
    fail_fast: bool,
    tasks: Seq<(String, WorkOutcome<T>)>,
    i: int,
) -> TaskResult<T> {
    if batch_stopped_before(fail_fast, tasks, i) {
        TaskResult::Cancelled
    } else {
        match tasks[i].1 {
            WorkOutcome::Done(v) => TaskResult::Success(v),
            WorkOutcome::Error(m) => TaskResult::Failed(m),
            WorkOutcome::TimedOut => TaskResult::Timeout,
        }
    }
}

impl AsyncTaskScheduler {
    /// Runs a whole batch in submission order. The result list has exactly
    /// one entry per submitted task, under the task's own id and in
    /// submission order; the progress log climbs one by one and, when
    /// nothing is cancelled, ends at the batch total.
    pub fn execute_batch<T>(
        &mut self,
        tasks: Vec<(String, WorkOutcome<T>)>,
        now_ms: u64,
    ) -> (r: Vec<(String, TaskResult<T>)>)
        requires
            old(self).wf(),
            forall|i: int|
                0 <= i < tasks@.len() ==> ((#[trigger] tasks@[i]).1 is TimedOut
                    ==> old(self).config.timeout_ms is Some),
        ensures
            final(self).wf(),
            final(self).config == old(self).config,
            r@.len() == tasks@.len(),
            forall|i: int| 0 <= i < r@.len() ==> (#[trigger] r@[i]).0@ == tasks@[i].0@,
            forall|i: int|
                0 <= i < r@.len() ==> (#[trigger] r@[i]).1 == expected_batch_result(
                    old(self).config.fail_fast,
                    tasks@,
                    i,
                ),
            forall|t: int|
                0 <= t < final(self).progress_log@.len() ==> #[trigger] final(self).progress_log@[t]
                    == t + 1,
            final(self).progress_log@.len() == tasks@.len(),
            final(self).completed_count + final(self).cancelled_count == tasks@.len(),
            (forall|j: int| 0 <= j < tasks@.len() ==> (#[trigger] tasks@[j]).1 is Done)
                ==> final(self).completed_count == tasks@.len(),
            !old(self).config.fail_fast ==> final(self).completed_count == tasks@.len(),
    {
        let ghost cfg = old(self).config;
        let ghost tasks0 = tasks@;
        self.task_status = Vec::new();
        self.should_stop = false;
        self.running_count = 0;
        self.completed_count = 0;
        self.successful_count = 0;
        self.failed_count = 0;
        self.cancelled_count = 0;
        self.progress_log = Vec::new();
        let n = tasks.len();
        let mut work = tasks;
        let mut r: Vec<(String, TaskResult<T>)> = Vec::new();
        let mut i: usize = 0;
        while i < n
            invariant
                n == tasks0.len(),
                work@ == tasks0.skip(i as int),
                0 <= i <= n,
                r@.len() == i,
                self.wf(),
                self.config == cfg,
                self.running_count == 0,
                self.should_stop == batch_stopped_before(cfg.fail_fast, tasks0, i as int),
                self.progress_log@.len() == i,
                self.completed_count + self.cancelled_count == i,
                !batch_stopped_before(cfg.fail_fast, tasks0, i as int) ==> self.completed_count
                    == i,
                forall|j: int|
                    0 <= j < tasks0.len() ==> ((#[trigger] tasks0[j]).1 is TimedOut
                        ==> cfg.timeout_ms is Some),
                forall|t: int| 0 <= t < i ==> (#[trigger] r@[t]).0@ == tasks0[t].0@,
                forall|t: int|
                    0 <= t < i ==> (#[trigger] r@[t]).1 == expected_batch_result(
                        cfg.fail_fast,
                        tasks0,
                        t,
                    ),
            decreases n - i,
        {
            let (task_id, outcome) = work.remove(0);
            proof {
                assert(tasks0.skip(i as int)[0] == tasks0[i as int]);
                assert(tasks0.skip(i as int).remove(0) =~= tasks0.skip(i as int + 1));
            }
            let id_for_result = task_id.clone();
            let ghost pre_stop = self.should_stop;
            let result = self.execute_task(task_id, outcome, now_ms);
            r.push((id_for_result, result));
            proof {
                assert forall|t: int| 0 <= t < i + 1 implies (#[trigger] r@[t]).1
                    == expected_batch_result(cfg.fail_fast, tasks0, t) by {
                    if t < i as int {
                    } else {
                        if pre_stop {
                            assert(batch_stopped_before(cfg.fail_fast, tasks0, i as int));
                        }
                    }
                }
                assert(self.should_stop == batch_stopped_before(
                    cfg.fail_fast,
                    tasks0,
                    i as int + 1,
                )) by {
                    if self.should_stop {
                        if !pre_stop {
                            assert(!(tasks0[i as int].1 is Done));
                        } else {
                            let j = choose|j: int|
                                0 <= j < i && !((#[trigger] tasks0[j]).1 is Done);
                            assert(0 <= j < i + 1 && !(tasks0[j].1 is Done));
                        }
                    } else {
                        if batch_stopped_before(cfg.fail_fast, tasks0, i as int + 1) {
                            let j = choose|j: int|
                                0 <= j < i + 1 && !((#[trigger] tasks0[j]).1 is Done);
                            assert(j == i as int);
                            assert(false);
                        }
                    }
                }
            }
            i = i + 1;
        }
        r
    }
}

impl AsyncTaskScheduler {
    /// A snapshot of the record of the given task, if one was admitted.
    pub fn get_task_status(&self, task_id: &str) -> (r: Option<TaskStatus>)
        ensures
            match r {
                Some(st) => exists|i: int|
                    0 <= i < self.task_status@.len() && #[trigger] self.task_status@[i] == st
                        && st.id@ == task_id@,
                None => forall|i: int|
                    0 <= i < self.task_status@.len() ==> (#[trigger] self.task_status@[i]).id@
                        != task_id@,
            },
    {
        let n = self.task_status.len();
        let mut i: usize = 0;
        while i < n
            invariant
                n == self.task_status@.len(),
                0 <= i <= n,
                forall|j: int|
                    0 <= j < i ==> (#[trigger] self.task_status@[j]).id@ != task_id@,
            decreases n - i,
        {
            if crate::strmap::str_eq(self.task_status[i].id.as_str(), task_id) {
                return Some(self.task_status[i].clone());
            }
            i = i + 1;
        }
        None
    }

    /// A snapshot of every task record, in admission order.
    pub fn get_all_task_status(&self) -> (r: &Vec<TaskStatus>)
        ensures
            r@ == self.task_status@,
    {
        &self.task_status
    }

    /// Whether some admitted task has not reached a terminal state.
    pub fn has_running_tasks(&self) -> (r: bool)
        requires
            self.wf(),
        ensures
            r == (self.running_count > 0),
    {
        self.running_count > 0
    }

    /// The completed count and the number of admitted tasks.
    pub fn get_progress(&self) -> (r: (usize, usize))
        ensures
            r.0 == self.completed_count,
            r.1 as nat == self.task_status@.len(),
    {
        (self.completed_count, self.task_status.len())
    }

    /// Completed, admitted, successful and failed counts.
    pub fn get_detailed_progress(&self) -> (r: (usize, usize, usize, usize))
        ensures
            r.0 == self.completed_count,
            r.1 as nat == self.task_status@.len(),
            r.2 == self.successful_count,
            r.3 == self.failed_count,
    {
        (self.completed_count, self.task_status.len(), self.successful_count, self.failed_count)
    }
}

/// At every instant a well-formed scheduler has at most `max_concurrency`
/// tasks in the running state.
pub proof fn lemma_running_bounded(s: AsyncTaskScheduler)
    requires
        s.wf(),
    ensures
        s.task_status@.len() - count_completed(s.task_status@) <= s.config.max_concurrency,
{
}

/// With fail-fast on, once any task has failed or timed out the stop flag is
/// raised, so no further task transitions to the running state: running a
/// task then returns Cancelled without admitting it.
pub proof fn lemma_fail_fast_blocks_dispatch(s: AsyncTaskScheduler)
    requires
        s.wf(),
        s.config.fail_fast,
        has_failure(s.task_status@),
    ensures
        s.should_stop,
{
}

/// The progress readings are strictly increasing and climb one by one, so
/// the last reading equals the number of tasks that reached a terminal
/// state, cancellation included.
pub proof fn lemma_progress_strictly_increasing(s: AsyncTaskScheduler)
    requires
        s.wf(),
    ensures
        forall|t1: int, t2: int|
            0 <= t1 < t2 < s.progress_log@.len() ==> s.progress_log@[t1] < s.progress_log@[t2],
        s.progress_log@.len() > 0 ==> s.progress_log@.last() as nat == s.completed_count
            + s.cancelled_count,
{
    assert forall|t1: int, t2: int|
        0 <= t1 < t2 < s.progress_log@.len() implies s.progress_log@[t1] < s.progress_log@[t2] by {
        assert(s.progress_log@[t1] == t1 + 1);
        assert(s.progress_log@[t2] == t2 + 1);
    }
    if s.progress_log@.len() > 0 {
        assert(s.progress_log@[s.progress_log@.len() - 1] == s.progress_log@.len());
    }
}

} // verus!