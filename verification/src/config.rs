//! Configuration: the recognized options with their defaults, runtime-
//! argument merging, the package-manager choice, and the ignore predicate.
use vstd::prelude::*;

use crate::scheduler::host_parallelism;
use crate::strmap::{clone_string_vec, str_eq};
use crate::version::{str_contains, str_has_prefix, str_has_substring, str_starts_with};
use vstd::string::StrSliceExecFns;

verus! {

/// Whether the glob pattern compiles: a function of the pattern alone.
pub uninterp spec fn glob_pattern_ok(pattern: Seq<char>) -> bool;

/// Whether the compiled glob pattern matches the path: a function of the
/// two strings alone.
pub uninterp spec fn glob_matches(pattern: Seq<char>, path: Seq<char>) -> bool;

/// Relies on glob::Pattern::new and glob::Pattern::matches: whether the
/// pattern compiles, and whether it matches the path, depend on the two
/// strings alone; an invalid pattern yields no match answer.
#[verifier::external_body]
fn glob_match(pattern: &str, path: &str) -> (r: Option<bool>)
    ensures
        r is Some <==> glob_pattern_ok(pattern@),
        match r {
            Some(b) => b == glob_matches(pattern@, path@),
            None => true,
        },
{
    match glob::Pattern::new(pattern) {
        Ok(p) => Some(p.matches(path)),
        Err(_) => None,
    }
}

/// One user ignore pattern hits the path: the pattern compiles and either
/// matches as a glob, or is a prefix of the path, or occurs inside it.
pub open spec fn pattern_hits(pattern: Seq<char>, path: Seq<char>) -> bool {
    glob_pattern_ok(pattern) && (glob_matches(pattern, path) || str_has_prefix(path, pattern)
        || str_has_substring(path, pattern))
}

/// The scanner skips the path: it holds "node_modules", or some configured
/// pattern hits it.
pub open spec fn path_ignored(patterns: Seq<String>, path: Seq<char>) -> bool {
    str_has_substring(path, "node_modules"@) || exists|i: int|
        0 <= i < patterns.len() && #[trigger] pattern_hits(patterns[i]@, path)
}

/// The supported package managers.
pub enum PackageManager {
    Pnpm,
    Yarn,
    Npm,
}

/// An ASCII upper-case letter folded to lower case; other characters are
/// kept.
pub open spec fn lower_char(c: char) -> char {
    if 65 <= c as u32 && c as u32 <= 90 {
        (c as u32 + 32) as char
    } else {
        c
    }
}

/// The sequence with its ASCII letters folded to lower case.
pub open spec fn ascii_lower(s: Seq<char>) -> Seq<char> {
    s.map_values(|c: char| lower_char(c))
}

/// Compares two strings with ASCII letters folded to lower case.
fn eq_ignore_ascii_case(a: &str, b: &str) -> (r: bool)
    ensures
        r == (ascii_lower(a@) == ascii_lower(b@)),
{
    let la = a.unicode_len();
    let lb = b.unicode_len();
    if la != lb {
        proof {
            assert(ascii_lower(a@).len() != ascii_lower(b@).len());
        }
        return false;
    }
    let mut i: usize = 0;
    while i < la
        invariant
            la == a@.len(),
            la == b@.len(),
            0 <= i <= la,
            forall|j: int| 0 <= j < i ==> lower_char(a@[j]) == lower_char(b@[j]),
        decreases la - i,
    {
        let ca = a.get_char(i) as u32;
        let cb = b.get_char(i) as u32;
        let fa = if 65 <= ca && ca <= 90 {
            ca + 32
        } else {
            ca
        };
        let fb = if 65 <= cb && cb <= 90 {
            cb + 32
        } else {
            cb
        };
        if fa != fb {
            proof {
                assert(lower_char(a@[i as int]) != lower_char(b@[i as int]));
                assert(ascii_lower(a@)[i as int] != ascii_lower(b@)[i as int]);
            }
            return false;
        }
        proof {
            assert(lower_char(a@[i as int]) == lower_char(b@[i as int]));
        }
        i = i + 1;
    }
    proof {
        assert(ascii_lower(a@) =~= ascii_lower(b@));
    }
    true
}

impl PackageManager {
    /// The binary name to invoke for this package manager.
    pub fn as_str(&self) -> (r: &'static str)
        ensures
            match self {
                PackageManager::Pnpm => r@ == "pnpm"@,
                PackageManager::Yarn => r@ == "yarn"@,
                PackageManager::Npm => r@ == "npm"@,
            },
    {
        match self {
            PackageManager::Pnpm => "pnpm",
            PackageManager::Yarn => "yarn",
            PackageManager::Npm => "npm",
        }
    }

    /// Parses a package-manager name, ignoring ASCII case; anything but
    /// pnpm, yarn and npm is rejected.
    pub fn from_str(s: &str) -> (r: Result<Self, String>)
        ensures
            match r {
                Ok(pm) => match pm {
                    PackageManager::Pnpm => ascii_lower(s@) == ascii_lower("pnpm"@),
                    PackageManager::Yarn => ascii_lower(s@) == ascii_lower("yarn"@),
                    PackageManager::Npm => ascii_lower(s@) == ascii_lower("npm"@),
                },
                Err(_) => ascii_lower(s@) != ascii_lower("pnpm"@) && ascii_lower(s@)
                    != ascii_lower("yarn"@) && ascii_lower(s@) != ascii_lower("npm"@),
            },
    {
        if eq_ignore_ascii_case(s, "pnpm") {
            Ok(PackageManager::Pnpm)
        } else if eq_ignore_ascii_case(s, "yarn") {
            Ok(PackageManager::Yarn)
        } else if eq_ignore_ascii_case(s, "npm") {
            Ok(PackageManager::Npm)
        } else {
            Err("unsupported package manager; only pnpm, yarn and npm are supported".to_owned())
        }
    }

    /// All supported package managers.
    pub fn all() -> (r: Vec<PackageManager>)
        ensures
            r@.len() == 3,
            r@[0] is Pnpm,
            r@[1] is Yarn,
            r@[2] is Npm,
    {
        let mut r: Vec<PackageManager> = Vec::new();
        r.push(PackageManager::Pnpm);
        r.push(PackageManager::Yarn);
        r.push(PackageManager::Npm);
        r
    }

    /// A copy of this package manager.
    pub fn duplicate(&self) -> (r: Self)
        ensures
            r == *self,
    {
        match self {
            PackageManager::Pnpm => PackageManager::Pnpm,
            PackageManager::Yarn => PackageManager::Yarn,
            PackageManager::Npm => PackageManager::Npm,
        }
    }
}

impl Default for PackageManager {
    fn default() -> (r: Self)
        ensures
            r is Pnpm,
    {
        PackageManager::Pnpm
    }
}

/// Workspace options.
pub struct WorkspaceConfig {
    /// The workspace root directory.
    pub root: String,
    /// The package manager to invoke.
    pub package_manager: PackageManager,
    /// Patterns of directories and files the scanner skips.
    pub ignore: Vec<String>,
}

/// One predefined named task.
pub struct TaskConfig {
    /// The task name.
    pub name: String,
    /// The target package name, with "*" meaning every package.
    pub pkg_name: String,
    /// An optional description.
    pub desc: Option<String>,
    /// The command to run.
    pub command: String,
}

/// Execution options.
pub struct ExecutionConfig {
    /// Upper bound on simultaneously running tasks.
    pub max_concurrency: usize,
    /// Per-task timeout in seconds; zero means none.
    pub task_timeout: u32,
    /// Retry count; recorded but not acted on by the scheduler.
    pub retry_count: u32,
    /// Whether later stages still run after a failure.
    pub continue_on_failure: bool,
}

/// Output options.
pub struct OutputConfig {
    pub show_progress: bool,
    pub verbose: bool,
    pub colored: bool,
}

/// Language options.
pub struct I18nConfig {
    /// The interface language identifier.
    pub language: String,
}

impl Default for I18nConfig {
    fn default() -> (r: Self)
        ensures
            r.language@ == "en_us"@,
    {
        I18nConfig { language: "en_us".to_owned() }
    }
}

/// Runtime arguments that override the loaded configuration.
pub struct RuntimeArgs {
    pub verbose: Option<bool>,
    pub colored: Option<bool>,
    pub show_progress: Option<bool>,
    pub max_concurrency: Option<usize>,
    pub task_timeout: Option<u32>,
    pub retry_count: Option<u32>,
    pub continue_on_failure: Option<bool>,
    pub workspace_root: Option<String>,
    pub language: Option<String>,
}

impl Default for RuntimeArgs {
    fn default() -> (r: Self)
        ensures
            r.verbose is None,
            r.colored is None,
            r.show_progress is None,
            r.max_concurrency is None,
            r.task_timeout is None,
            r.retry_count is None,
            r.continue_on_failure is None,
            r.workspace_root is None,
            r.language is None,
    {
        RuntimeArgs {
            verbose: None,
            colored: None,
            show_progress: None,
            max_concurrency: None,
            task_timeout: None,
            retry_count: None,
            continue_on_failure: None,
            workspace_root: None,
            language: None,
        }
    }
}

/// The whole configuration.
pub struct Config {
    pub workspace: WorkspaceConfig,
    pub tasks: Vec<TaskConfig>,
    pub execution: ExecutionConfig,
    pub output: OutputConfig,
    pub i18n: I18nConfig,
}

impl Default for Config {
    /// The documented defaults: root ".", pnpm, the standard ignore list,
    /// host parallelism, a 300 second timeout, one retry, stop on failure,
    /// progress on, quiet, colored, English.
    fn default() -> (r: Self)
        ensures
            r.workspace.root@ == "."@,
            r.workspace.package_manager is Pnpm,
            r.workspace.ignore@.len() == 3,
            r.workspace.ignore@[0]@ == ".git"@,
            r.workspace.ignore@[1]@ == "dist"@,
            r.workspace.ignore@[2]@ == "*.log"@,
            r.tasks@.len() == 0,
            r.execution.max_concurrency >= 1,
            r.execution.task_timeout == 300,
            r.execution.retry_count == 1,
            !r.execution.continue_on_failure,
            r.output.show_progress,
            !r.output.verbose,
            r.output.colored,
            r.i18n.language@ == "en_us"@,
    {
        let mut ignore: Vec<String> = Vec::new();
        ignore.push(".git".to_owned());
        ignore.push("dist".to_owned());
        ignore.push("*.log".to_owned());
        Config {
            workspace: WorkspaceConfig {
                root: ".".to_owned(),
                package_manager: PackageManager::Pnpm,
                ignore,
            },
            tasks: Vec::new(),
            execution: ExecutionConfig {
                max_concurrency: host_parallelism(),
                task_timeout: 300,
                retry_count: 1,
                continue_on_failure: false,
            },
            output: OutputConfig { show_progress: true, verbose: false, colored: true },
            i18n: I18nConfig { language: "en_us".to_owned() },
        }
    }
}

impl Config {
    /// Generates the default configuration template: the defaults with the
    /// three example tasks.
    pub fn generate_default_template() -> (r: Self)
        ensures
            r.tasks@.len() == 3,
            r.tasks@[0].name@ == "build"@,
            r.tasks@[1].name@ == "test"@,
            r.tasks@[2].name@ == "lint"@,
            forall|t: int| 0 <= t < 3 ==> (#[trigger] r.tasks@[t]).pkg_name@ == "*"@,
    {
        let mut config = Config::default();
        let mut tasks: Vec<TaskConfig> = Vec::new();
        tasks.push(
            TaskConfig {
                name: "build".to_owned(),
                pkg_name: "*".to_owned(),
                desc: Some("build every package".to_owned()),
                command: "npm run build".to_owned(),
            },
        );
        tasks.push(
            TaskConfig {
                name: "test".to_owned(),
                pkg_name: "*".to_owned(),
                desc: Some("run the tests".to_owned()),
                command: "npm run test".to_owned(),
            },
        );
        tasks.push(
            TaskConfig {
                name: "lint".to_owned(),
                pkg_name: "*".to_owned(),
                desc: Some("check the sources".to_owned()),
                command: "npm run lint".to_owned(),
            },
        );
        config.tasks = tasks;
        config
    }

    /// Applies the runtime overrides: each given value wins over the loaded
    /// one, and an absent one changes nothing.
    #[verifier::rlimit(60)]
    pub fn merge_runtime_args(&mut self, args: RuntimeArgs)
        ensures
            final(self).output.verbose == (match args.verbose {
                Some(v) => v,
                None => old(self).output.verbose,
            }),
            final(self).output.colored == (match args.colored {
                Some(v) => v,
                None => old(self).output.colored,
            }),
            final(self).output.show_progress == (match args.show_progress {
                Some(v) => v,
                None => old(self).output.show_progress,
            }),
            final(self).execution.max_concurrency == (match args.max_concurrency {
                Some(v) => v,
                None => old(self).execution.max_concurrency,
            }),
            final(self).execution.task_timeout == (match args.task_timeout {
                Some(v) => v,
                None => old(self).execution.task_timeout,
            }),
            final(self).execution.retry_count == (match args.retry_count {
                Some(v) => v,
                None => old(self).execution.retry_count,
            }),
            final(self).execution.continue_on_failure == (match args.continue_on_failure {
                Some(v) => v,
                None => old(self).execution.continue_on_failure,
            }),
            final(self).workspace.root@ == (match args.workspace_root {
                Some(v) => v@,
                None => old(self).workspace.root@,
            }),
            final(self).i18n.language@ == (match args.language {
                Some(v) => v@,
                None => old(self).i18n.language@,
            }),
            final(self).workspace.package_manager == old(self).workspace.package_manager,
            final(self).workspace.ignore@ == old(self).workspace.ignore@,
            final(self).tasks@ == old(self).tasks@,
    {
        match args.verbose {
            Some(v) => {
                self.output.verbose = v;
            },
            None => {},
        }
        match args.colored {
            Some(v) => {
                self.output.colored = v;
            },
            None => {},
        }
        match args.show_progress {
            Some(v) => {
                self.output.show_progress = v;
            },
            None => {},
        }
        match args.max_concurrency {
            Some(v) => {
                self.execution.max_concurrency = v;
            },
            None => {},
        }
        match args.task_timeout {
            Some(v) => {
                self.execution.task_timeout = v;
            },
            None => {},
        }
        match args.retry_count {
            Some(v) => {
                self.execution.retry_count = v;
            },
            None => {},
        }
        match args.continue_on_failure {
            Some(v) => {
                self.execution.continue_on_failure = v;
            },
            None => {},
        }
        match args.workspace_root {
            Some(v) => {
                self.workspace.root = v;
            },
            None => {},
        }
        match args.language {
            Some(v) => {
                self.i18n.language = v;
            },
            None => {},
        }
    }

    /// The configured workspace root.
    pub fn get_workspace_root(&self) -> (r: String)
        ensures
            r@ == self.workspace.root@,
    {
        self.workspace.root.clone()
    }

    /// The configured ignore patterns.
    pub fn get_ignore_patterns(&self) -> (r: Vec<String>)
        ensures
            r@ == self.workspace.ignore@,
    {
        clone_string_vec(&self.workspace.ignore)
    }

    /// The configured interface language.
    pub fn get_language(&self) -> (r: String)
        ensures
            r@ == self.i18n.language@,
    {
        self.i18n.language.clone()
    }

    /// The configured concurrency bound.
    pub fn get_max_concurrency(&self) -> (r: usize)
        ensures
            r == self.execution.max_concurrency,
    {
        self.execution.max_concurrency
    }

    /// The configured per-task timeout in seconds; zero means none.
    pub fn get_task_timeout(&self) -> (r: u32)
        ensures
            r == self.execution.task_timeout,
    {
        self.execution.task_timeout
    }

    /// The configured retry count.
    pub fn get_retry_count(&self) -> (r: u32)
        ensures
            r == self.execution.retry_count,
    {
        self.execution.retry_count
    }

    /// Whether later stages still run after a failure.
    pub fn get_continue_on_failure(&self) -> (r: bool)
        ensures
            r == self.execution.continue_on_failure,
    {
        self.execution.continue_on_failure
    }

    /// Whether a progress bar is shown.
    pub fn get_show_progress(&self) -> (r: bool)
        ensures
            r == self.output.show_progress,
    {
        self.output.show_progress
    }

    /// Whether detailed reporting is on.
    pub fn get_verbose(&self) -> (r: bool)
        ensures
            r == self.output.verbose,
    {
        self.output.verbose
    }

    /// Whether output is colored.
    pub fn get_colored(&self) -> (r: bool)
        ensures
            r == self.output.colored,
    {
        self.output.colored
    }

    /// The configured package manager.
    pub fn get_package_manager(&self) -> (r: PackageManager)
        ensures
            r == self.workspace.package_manager,
    {
        self.workspace.package_manager.duplicate()
    }

    /// Whether the scanner skips the path.
    pub fn should_ignore_path(&self, path: &str) -> (r: bool)
        ensures
            r == path_ignored(self.workspace.ignore@, path@),
    {
        if str_contains(path, "node_modules") {
            return true;
        }
        let n = self.workspace.ignore.len();
        let mut i: usize = 0;
        while i < n
            invariant
                n == self.workspace.ignore@.len(),
                0 <= i <= n,
                forall|j: int|
                    0 <= j < i ==> !#[trigger] pattern_hits(self.workspace.ignore@[j]@, path@),
            decreases n - i,
        {
            let pattern = &self.workspace.ignore[i];
            match glob_match(pattern.as_str(), path) {
                Some(true) => {
                    proof {
                        assert(pattern_hits(self.workspace.ignore@[i as int]@, path@));
                    }
                    return true;
                },
                Some(false) => {
                    if str_starts_with(path, pattern.as_str()) || str_contains(
                        path,
                        pattern.as_str(),
                    ) {
                        proof {
                            assert(pattern_hits(self.workspace.ignore@[i as int]@, path@));
                        }
                        return true;
                    }
                },
                None => {},
            }
            i = i + 1;
        }
        false
    }

    /// Looks a predefined task up by name; the first match wins.
    pub fn get_task_config(&self, task_name: &str) -> (r: Option<&TaskConfig>)
        ensures
            match r {
                Some(t) => exists|i: int|
                    0 <= i < self.tasks@.len() && #[trigger] self.tasks@[i] == *t
                        && t.name@ == task_name@ && (forall|j: int|
                        0 <= j < i ==> (#[trigger] self.tasks@[j]).name@ != task_name@),
                None => forall|i: int|
                    0 <= i < self.tasks@.len() ==> (#[trigger] self.tasks@[i]).name@ != task_name@,
            },
    {
        let n = self.tasks.len();
        let mut i: usize = 0;
        while i < n
            invariant
                n == self.tasks@.len(),
                0 <= i <= n,
                forall|j: int| 0 <= j < i ==> (#[trigger] self.tasks@[j]).name@ != task_name@,
            decreases n - i,
        {
            if str_eq(self.tasks[i].name.as_str(), task_name) {
                return Some(&self.tasks[i]);
            }
            i = i + 1;
        }
        None
    }
}

} // verus!
