//! The run-script task model: one task per package and script, with a
//! status that transitions from pending through running (or skipped) to a
//! terminal state.
use vstd::prelude::*;

use vstd::string::StringExecFns;

use crate::clock::now_millis;
use crate::strmap::seq_has_string;

verus! {

/// The state of one run-script task.
#[derive(PartialEq, Eq, Structural, Clone, Copy, Debug)]
pub enum TaskStatus {
    Pending,
    Running,
    Success,
    Failed,
    Skipped,
}

/// The captured outcome of one finished command.
pub struct TaskResult {
    /// The child's exit status code.
    pub exit_code: i32,
    /// The captured standard output.
    pub stdout: String,
    /// The captured standard error.
    pub stderr: String,
    /// How long the command ran, in milliseconds.
    pub duration_ms: u64,
    /// Whether the command succeeded.
    pub success: bool,
}

impl TaskResult {
    /// A successful result: exit code zero and no error output.
    pub fn success(stdout: String, duration_ms: u64) -> (r: Self)
        ensures
            r.exit_code == 0,
            r.stdout@ == stdout@,
            r.stderr@ == Seq::<char>::empty(),
            r.duration_ms == duration_ms,
            r.success,
    {
        TaskResult { exit_code: 0, stdout, stderr: String::new(), duration_ms, success: true }
    }

    /// A failed result with the child's exit code and streams.
    pub fn failure(exit_code: i32, stdout: String, stderr: String, duration_ms: u64) -> (r: Self)
        ensures
            r.exit_code == exit_code,
            r.stdout@ == stdout@,
            r.stderr@ == stderr@,
            r.duration_ms == duration_ms,
            !r.success,
    {
        TaskResult { exit_code, stdout, stderr, duration_ms, success: false }
    }
}

/// Options for running a batch of tasks.
pub struct TaskConfig {
    /// Upper bound on simultaneously running tasks.
    pub max_concurrency: usize,
    /// Per-task timeout in seconds, if any.
    pub timeout_seconds: Option<u64>,
    /// Retry count; recorded but not acted on.
    pub retry_count: u32,
    /// Whether the remaining tasks still run after a failure.
    pub continue_on_error: bool,
    /// Whether output is suppressed.
    pub silent: bool,
    /// Whether detailed reporting is on.
    pub verbose: bool,
}

impl Default for TaskConfig {
    fn default() -> (r: Self)
        ensures
            r.max_concurrency >= 1,
            r.timeout_seconds is None,
            r.retry_count == 0,
            !r.continue_on_error,
            !r.silent,
            !r.verbose,
    {
        TaskConfig {
            max_concurrency: crate::scheduler::host_parallelism(),
            timeout_seconds: None,
            retry_count: 0,
            continue_on_error: false,
            silent: false,
            verbose: false,
        }
    }
}

/// One unit of deferred work: run one script of one package.
pub struct Task {
    /// The task id: the package name, a colon, and the command.
    pub id: String,
    /// The package the task belongs to.
    pub package_name: String,
    /// The package directory, relative to the workspace root.
    pub package_path: String,
    /// The script name to run.
    pub command: String,
    /// Extra command arguments.
    pub args: Vec<String>,
    /// The working directory the command runs in.
    pub working_directory: String,
    /// Extra environment variables.
    pub env_vars: Vec<(String, String)>,
    /// The names of the scripts the package declares.
    pub scripts: Vec<String>,
    /// The task state.
    pub status: TaskStatus,
    /// When the task was created, in epoch milliseconds.
    pub created_at_ms: u64,
    /// When the task started running, if it has.
    pub started_at_ms: Option<u64>,
    /// When the task reached a terminal state, if it has.
    pub completed_at_ms: Option<u64>,
    /// The command's outcome, once finished.
    pub result: Option<TaskResult>,
}

impl Task {
    /// Creates a pending task whose id is `package:command` and whose
    /// working directory is the package path.
    pub fn new(package_name: String, package_path: String, command: String, args: Vec<String>) -> (r:
        Task)
        ensures
            r.id@ == package_name@ + ":"@ + command@,
            r.package_name@ == package_name@,
            r.package_path@ == package_path@,
            r.command@ == command@,
            r.args@ == args@,
            r.working_directory@ == package_path@,
            r.env_vars@.len() == 0,
            r.scripts@.len() == 0,
            r.status is Pending,
            r.started_at_ms is None,
            r.completed_at_ms is None,
            r.result is None,
    {
        let mut id = package_name.clone();
        id.append(":");
        id.append(command.as_str());
        let working_directory = package_path.clone();
        Task {
            id,
            package_name,
            package_path,
            command,
            args,
            working_directory,
            env_vars: Vec::new(),
            scripts: Vec::new(),
            status: TaskStatus::Pending,
            created_at_ms: now_millis(),
            started_at_ms: None,
            completed_at_ms: None,
            result: None,
        }
    }

    /// Replaces the extra environment variables.
    pub fn with_env_vars(self, env_vars: Vec<(String, String)>) -> (r: Task)
        ensures
            r == (Task { env_vars, ..self }),
    {
        Task { env_vars, ..self }
    }

    /// Replaces the working directory.
    pub fn with_working_directory(self, working_directory: String) -> (r: Task)
        ensures
            r == (Task { working_directory, ..self }),
    {
        Task { working_directory, ..self }
    }

    /// Records the scripts the package declares, which decide whether the
    /// task runs or is skipped.
    pub fn with_scripts(self, scripts: Vec<String>) -> (r: Task)
        ensures
            r == (Task { scripts, ..self }),
    {
        Task { scripts, ..self }
    }

    /// Whether the package declares the named script.
    pub fn has_script(&self, script_name: &str) -> (r: bool)
        ensures
            r == seq_has_string(self.scripts@, script_name@),
    {
        crate::strmap::vec_contains_str(&self.scripts, script_name)
    }

    /// Starts the task: it enters the running state when the package
    /// declares its script, and is skipped otherwise.
    pub fn start(&mut self)
        ensures
            seq_has_string(old(self).scripts@, old(self).command@) ==> final(self).status
                is Running && final(self).started_at_ms is Some,
            !seq_has_string(old(self).scripts@, old(self).command@) ==> final(self).status
                is Skipped && final(self).completed_at_ms is Some,
            final(self).id@ == old(self).id@,
            final(self).package_name@ == old(self).package_name@,
            final(self).package_path@ == old(self).package_path@,
            final(self).command@ == old(self).command@,
            final(self).args@ == old(self).args@,
            final(self).working_directory@ == old(self).working_directory@,
            final(self).env_vars@ == old(self).env_vars@,
            final(self).scripts@ == old(self).scripts@,
            final(self).created_at_ms == old(self).created_at_ms,
            final(self).result == old(self).result,
    {
        let runnable = {
            let command = &self.command;
            crate::strmap::vec_contains_str(&self.scripts, command.as_str())
        };
        if runnable {
            self.status = TaskStatus::Running;
            self.started_at_ms = Some(now_millis());
        } else {
            self.skip();
        }
    }

    /// Finishes the task with the command's outcome, storing it whole.
    pub fn complete(&mut self, result: TaskResult)
        ensures
            final(self).status == (if result.success {
                TaskStatus::Success
            } else {
                TaskStatus::Failed
            }),
            final(self).completed_at_ms is Some,
            final(self).result == Some(result),
            final(self).id@ == old(self).id@,
            final(self).package_name@ == old(self).package_name@,
            final(self).package_path@ == old(self).package_path@,
            final(self).command@ == old(self).command@,
            final(self).args@ == old(self).args@,
            final(self).working_directory@ == old(self).working_directory@,
            final(self).env_vars@ == old(self).env_vars@,
            final(self).scripts@ == old(self).scripts@,
            final(self).created_at_ms == old(self).created_at_ms,
            final(self).started_at_ms == old(self).started_at_ms,
    {
        self.status = if result.success {
            TaskStatus::Success
        } else {
            TaskStatus::Failed
        };
        self.completed_at_ms = Some(now_millis());
        self.result = Some(result);
    }

    /// Skips the task; every other field is kept.
    pub fn skip(&mut self)
        ensures
            final(self).status is Skipped,
            final(self).completed_at_ms is Some,
            final(self).id@ == old(self).id@,
            final(self).package_name@ == old(self).package_name@,
            final(self).package_path@ == old(self).package_path@,
            final(self).command@ == old(self).command@,
            final(self).args@ == old(self).args@,
            final(self).working_directory@ == old(self).working_directory@,
            final(self).env_vars@ == old(self).env_vars@,
            final(self).scripts@ == old(self).scripts@,
            final(self).created_at_ms == old(self).created_at_ms,
            final(self).started_at_ms == old(self).started_at_ms,
            final(self).result == old(self).result,
    {
        self.status = TaskStatus::Skipped;
        self.completed_at_ms = Some(now_millis());
    }

    /// How long the task ran, when both timestamps exist and are ordered.
    pub fn duration(&self) -> (r: Option<u64>)
        ensures
            match (self.started_at_ms, self.completed_at_ms) {
                (Some(s), Some(e)) => r == (if e >= s {
                    Some((e - s) as u64)
                } else {
                    None::<u64>
                }),
                _ => r is None,
            },
    {
        match (self.started_at_ms, self.completed_at_ms) {
            (Some(s), Some(e)) => {
                if e >= s {
                    Some(e - s)
                } else {
                    None
                }
            },
            _ => None,
        }
    }

    /// Whether the task reached a terminal state.
    pub fn is_completed(&self) -> (r: bool)
        ensures
            r == (self.status is Success || self.status is Failed || self.status is Skipped),
    {
        match self.status {
            TaskStatus::Success => true,
            TaskStatus::Failed => true,
            TaskStatus::Skipped => true,
            _ => false,
        }
    }

    /// Whether the task succeeded.
    pub fn is_success(&self) -> (r: bool)
        ensures
            r == (self.status is Success),
    {
        self.status == TaskStatus::Success
    }

    /// Whether the task failed.
    pub fn is_failed(&self) -> (r: bool)
        ensures
            r == (self.status is Failed),
    {
        self.status == TaskStatus::Failed
    }
}

} // verus!
