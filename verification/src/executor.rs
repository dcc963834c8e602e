//! The task executor's decisions: which packages of a stage get a task,
//! which are skipped, the stage summary, and whether the next stage runs.
use vstd::prelude::*;

use crate::config::Config;
use crate::package::WorkspacePackage;
use crate::strmap::{map_has_key, seq_has_string};
use crate::task::{Task, TaskConfig, TaskStatus};

verus! {

/// The counts a finished run reports.
pub struct ExecutionSummary {
    /// How many tasks the run held.
    pub total: usize,
    /// How many tasks succeeded.
    pub succeeded: usize,
    /// How many tasks failed.
    pub failed: usize,
    /// How many tasks were skipped.
    pub skipped: usize,
}

/// How many tasks of the list are in the given state.
pub open spec fn count_status(tasks: Seq<Task>, status: TaskStatus) -> nat
    decreases tasks.len(),
{
    if tasks.len() == 0 {
        0
    } else {
        count_status(tasks.drop_last(), status) + (if tasks.last().status == status {
            1nat
        } else {
            0nat
        })
    }
}

/// The task the executor builds for one package of a stage: named
/// `package:command`, run in the package folder, and carrying the package's
/// script names so that a package without the script is skipped.
pub open spec fn task_planned_for(p: WorkspacePackage, command: Seq<char>, t: Task) -> bool {
    &&& t.id@ == p.name@ + ":"@ + command
    &&& t.package_name@ == p.name@
    &&& t.package_path@ == p.folder@
    &&& t.command@ == command
    &&& t.working_directory@ == p.folder@
    &&& t.status is Pending
    &&& forall|d: Seq<char>|
        #[trigger] seq_has_string(t.scripts@, d) == map_has_key(p.scripts@, d)
}

/// The basic task executor.
pub struct TaskExecutor {
    /// The execution options.
    pub config: TaskConfig,
}

impl TaskExecutor {
    /// Creates an executor with the given options.
    pub fn new(config: TaskConfig) -> (r: Self)
        ensures
            r.config == config,
    {
        TaskExecutor { config }
    }

    /// Creates an executor from the loaded configuration: its concurrency
    /// bound and verbosity are taken over.
    pub fn new_from_config(config: &Config) -> (r: Self)
        ensures
            r.config.max_concurrency == config.execution.max_concurrency,
            r.config.verbose == config.output.verbose,
            r.config.continue_on_error == config.execution.continue_on_failure,
            r.config.timeout_seconds == (if config.execution.task_timeout == 0 {
                None::<u64>
            } else {
                Some(config.execution.task_timeout as u64)
            }),
    {
        let timeout_seconds = if config.execution.task_timeout == 0 {
            None
        } else {
            Some(config.execution.task_timeout as u64)
        };
        TaskExecutor {
            config: TaskConfig {
                max_concurrency: config.execution.max_concurrency,
                timeout_seconds,
                retry_count: config.execution.retry_count,
                continue_on_error: config.execution.continue_on_failure,
                silent: false,
                verbose: config.output.verbose,
            },
        }
    }

    /// Plans one stage: one pending task per package of the stage, in stage
    /// order, each carrying the package's script names.
    pub fn plan_stage_tasks(&self, stage: &Vec<WorkspacePackage>, command: &str) -> (tasks: Vec<
        Task,
    >)
        ensures
            tasks@.len() == stage@.len(),
            forall|m: int|
                0 <= m < stage@.len() ==> task_planned_for(
                    stage@[m],
                    command@,
                    #[trigger] tasks@[m],
                ),
    {
        let n = stage.len();
        let mut tasks: Vec<Task> = Vec::new();
        let mut m: usize = 0;
        while m < n
            invariant
                n == stage@.len(),
                0 <= m <= n,
                tasks@.len() == m,
                forall|t: int|
                    0 <= t < m ==> task_planned_for(stage@[t], command@, #[trigger] tasks@[t]),
            decreases n - m,
        {
            let package = &stage[m];
            let mut script_names: Vec<String> = Vec::new();
            let sn = package.scripts.len();
            let mut e: usize = 0;
            while e < sn
                invariant
                    n == stage@.len(),
                    0 <= m < n,
                    package.scripts@ == stage@[m as int].scripts@,
                    sn == stage@[m as int].scripts@.len(),
                    0 <= e <= sn,
                    script_names@.len() == e,
                    forall|x: int|
                        0 <= x < e ==> #[trigger] script_names@[x]@ == stage@[m as int].scripts@[x].0@,
                decreases sn - e,
            {
                script_names.push(package.scripts[e].0.clone());
                e = e + 1;
            }
            let task = Task::new(
                package.name.clone(),
                package.folder.clone(),
                command.to_owned(),
                Vec::new(),
            ).with_scripts(script_names);
            tasks.push(task);
            proof {
                let t = tasks@.len() - 1;
                assert forall|d: Seq<char>|
                    #[trigger] seq_has_string(tasks@[t].scripts@, d) == map_has_key(
                        stage@[m as int].scripts@,
                        d,
                    ) by {
                    if seq_has_string(tasks@[t].scripts@, d) {
                        let x = choose|x: int|
                            0 <= x < tasks@[t].scripts@.len() && tasks@[t].scripts@[x]@ == d;
                        assert(stage@[m as int].scripts@[x].0@ == d);
                    }
                    if map_has_key(stage@[m as int].scripts@, d) {
                        let x = choose|x: int|
                            0 <= x < stage@[m as int].scripts@.len() && (
                            #[trigger] stage@[m as int].scripts@[x]).0@ == d;
                        assert(tasks@[t].scripts@[x]@ == d);
                    }
                }
                assert(task_planned_for(stage@[m as int], command@, tasks@[t]));
            }
            m = m + 1;
        }
        tasks
    }

    /// Whether the run stops after a stage: some task failed and failures do
    /// not continue.
    pub fn should_stop_after_stage(&self, summary: &ExecutionSummary) -> (r: bool)
        ensures
            r == (summary.failed > 0 && !self.config.continue_on_error),
    {
        summary.failed > 0 && !self.config.continue_on_error
    }
}

/// Sums a finished task list into the counts the run reports.
pub fn summarize_tasks(tasks: &Vec<Task>) -> (r: ExecutionSummary)
    ensures
        r.total as nat == tasks@.len(),
        r.succeeded as nat == count_status(tasks@, TaskStatus::Success),
        r.failed as nat == count_status(tasks@, TaskStatus::Failed),
        r.skipped as nat == count_status(tasks@, TaskStatus::Skipped),
{
    let n = tasks.len();
    let mut succeeded: usize = 0;
    let mut failed: usize = 0;
    let mut skipped: usize = 0;
    let mut i: usize = 0;
    while i < n
        invariant
            n == tasks@.len(),
            0 <= i <= n,
            succeeded as nat == count_status(tasks@.take(i as int), TaskStatus::Success),
            failed as nat == count_status(tasks@.take(i as int), TaskStatus::Failed),
            skipped as nat == count_status(tasks@.take(i as int), TaskStatus::Skipped),
            succeeded <= i && failed <= i && skipped <= i,
        decreases n - i,
    {
        proof {
            assert(tasks@.take(i as int + 1).drop_last() =~= tasks@.take(i as int));
            assert(tasks@.take(i as int + 1).last() == tasks@[i as int]);
            lemma_count_status_le(tasks@.take(i as int), TaskStatus::Success);
            lemma_count_status_le(tasks@.take(i as int), TaskStatus::Failed);
            lemma_count_status_le(tasks@.take(i as int), TaskStatus::Skipped);
        }
        match tasks[i].status {
            TaskStatus::Success => {
                succeeded = succeeded + 1;
            },
            TaskStatus::Failed => {
                failed = failed + 1;
            },
            TaskStatus::Skipped => {
                skipped = skipped + 1;
            },
            _ => {},
        }
        i = i + 1;
    }
    proof {
        assert(tasks@.take(n as int) == tasks@);
    }
    ExecutionSummary { total: n, succeeded, failed, skipped }
}

proof fn lemma_count_status_le(tasks: Seq<Task>, status: TaskStatus)
    ensures
        count_status(tasks, status) <= tasks.len(),
    decreases tasks.len(),
{
    if tasks.len() > 0 {
        lemma_count_status_le(tasks.drop_last(), status);
    }
}

} // verus!
