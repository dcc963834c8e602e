use monox::config::{Config, PackageManager, RuntimeArgs};
use monox::executor::{summarize_tasks, TaskExecutor};
use monox::i18n::{format_with_args, get_translation};
use monox::package::{PackageJson, WorkspacePackage};
use monox::task::{Task, TaskConfig, TaskResult, TaskStatus};
use monox::text::{Colors, Logger, ProgressBar, TextStyles};

#[test]
fn package_manager_names_round_trip() {
    assert_eq!(PackageManager::Pnpm.as_str(), "pnpm");
    assert_eq!(PackageManager::Yarn.as_str(), "yarn");
    assert_eq!(PackageManager::Npm.as_str(), "npm");
    assert!(matches!(PackageManager::from_str("pnpm"), Ok(PackageManager::Pnpm)));
    assert!(matches!(PackageManager::from_str("YARN"), Ok(PackageManager::Yarn)));
    assert!(matches!(PackageManager::from_str("Npm"), Ok(PackageManager::Npm)));
    assert!(PackageManager::from_str("cargo").is_err());
    assert_eq!(PackageManager::all().len(), 3);
    assert!(matches!(PackageManager::default(), PackageManager::Pnpm));
}

#[test]
fn defaults_match_the_documented_values() {
    let config = Config::default();
    assert_eq!(config.workspace.root, ".");
    assert!(matches!(config.workspace.package_manager, PackageManager::Pnpm));
    assert_eq!(config.workspace.ignore, vec![".git", "dist", "*.log"]);
    assert!(config.execution.max_concurrency >= 1);
    assert_eq!(config.execution.task_timeout, 300);
    assert_eq!(config.execution.retry_count, 1);
    assert!(!config.execution.continue_on_failure);
    assert!(config.output.show_progress);
    assert!(!config.output.verbose);
    assert!(config.output.colored);
    assert_eq!(config.i18n.language, "en_us");
    let template = Config::generate_default_template();
    assert_eq!(template.tasks.len(), 3);
    assert_eq!(template.tasks[0].name, "build");
}

#[test]
fn runtime_args_override_only_what_they_carry() {
    let mut config = Config::default();
    let args = RuntimeArgs {
        verbose: Some(true),
        max_concurrency: Some(7),
        workspace_root: Some("/elsewhere".to_string()),
        ..RuntimeArgs::default()
    };
    config.merge_runtime_args(args);
    assert!(config.output.verbose);
    assert_eq!(config.execution.max_concurrency, 7);
    assert_eq!(config.workspace.root, "/elsewhere");
    assert_eq!(config.execution.task_timeout, 300);
    assert!(config.output.colored);
}

#[test]
fn ignore_predicate_recognizes_all_rule_kinds() {
    let config = Config::default();
    assert!(config.should_ignore_path("pkg/node_modules/dep"));
    assert!(config.should_ignore_path("build.log"));
    assert!(config.should_ignore_path("dist"));
    assert!(config.should_ignore_path("dist/bundle.js"));
    assert!(config.should_ignore_path("pkg/dist/bundle.js"));
    assert!(!config.should_ignore_path("packages/core/src"));
}

#[test]
fn task_lookup_finds_configured_tasks() {
    let template = Config::generate_default_template();
    let build = template.get_task_config("build").unwrap();
    assert_eq!(build.command, "npm run build");
    assert!(template.get_task_config("absent").is_none());
}

#[test]
fn translations_fall_back_to_naming_the_key() {
    let table = vec![
        ("run.start".to_string(), "Running {}".to_string()),
        ("check.done".to_string(), "All good".to_string()),
    ];
    assert_eq!(get_translation(&table, "check.done"), "All good");
    assert_eq!(get_translation(&table, "missing"), "Unknown translation key: missing");
}

#[test]
fn placeholders_are_filled_left_to_right() {
    assert_eq!(
        format_with_args("Stage {}: {} packages".to_string(), vec![
            "2".to_string(),
            "5".to_string(),
        ]),
        "Stage 2: 5 packages"
    );
    assert_eq!(format_with_args("no placeholder".to_string(), vec!["x".to_string()]), "no placeholder");
    assert_eq!(format_with_args("{}{}".to_string(), vec!["a".to_string()]), "a{}");
}

#[test]
fn colors_and_styles_wrap_with_ansi_codes() {
    assert_eq!(Colors::info("hi"), "\x1b[36mhi\x1b[0m");
    assert_eq!(Colors::warn("hi"), "\x1b[33mhi\x1b[0m");
    assert_eq!(Colors::error("hi"), "\x1b[31mhi\x1b[0m");
    assert_eq!(Colors::success("hi"), "\x1b[32mhi\x1b[0m");
    assert_eq!(TextStyles::bold("hi"), "\x1b[1mhi\x1b[0m");
    assert_eq!(TextStyles::italic("hi"), "\x1b[3mhi\x1b[0m");
    assert_eq!(TextStyles::underline("hi"), "\x1b[4mhi\x1b[0m");
    assert_eq!(TextStyles::strikethrough("hi"), "\x1b[9mhi\x1b[0m");
    assert_eq!(Logger::get_prefix("INFO"), "\x1b[36m[MONOX]\x1b[0m");
    assert_eq!(Logger::get_prefix("DEBUG"), "\x1b[36m[MONOX:DEBUG]\x1b[0m");
    assert_eq!(Logger::get_prefix("ERROR"), "\x1b[31m[MONOX]\x1b[0m");
}

#[test]
fn progress_bar_renders_counts_and_percentage() {
    let mut bar = ProgressBar::new(5, 10, false);
    bar.update(3);
    assert_eq!(
        bar.render(),
        format!("[{}{}] 3/5 (60%)", "\u{2588}".repeat(6), "\u{2591}".repeat(4))
    );
    let empty = ProgressBar::new(0, 10, false);
    assert_eq!(empty.render(), "");
}

#[test]
fn manifest_fields_fall_back_as_documented() {
    let pj = PackageJson {
        name: None,
        version: None,
        dependencies: vec![("a".to_string(), "1".to_string())],
        dev_dependencies: vec![("a".to_string(), "2".to_string())],
        peer_dependencies: Vec::new(),
        scripts: vec![("build".to_string(), "make".to_string())],
    };
    assert_eq!(pj.get_name("fallback"), "fallback");
    assert_eq!(pj.get_version(), "0.0.0");
    assert!(pj.has_script("build"));
    assert!(!pj.has_script("test"));
    let merged = pj.get_all_dependencies();
    assert_eq!(merged.len(), 1);
    assert_eq!(merged[0].1, "2");
}

#[test]
fn tasks_skip_packages_without_the_script() {
    let mut with_script = Task::new(
        "a".to_string(),
        "packages/a".to_string(),
        "build".to_string(),
        Vec::new(),
    )
    .with_scripts(vec!["build".to_string()]);
    let mut without_script = Task::new(
        "b".to_string(),
        "packages/b".to_string(),
        "build".to_string(),
        Vec::new(),
    );
    assert_eq!(with_script.id, "a:build");
    assert!(with_script.has_script("build"));
    with_script.start();
    assert_eq!(with_script.status, TaskStatus::Running);
    with_script.complete(TaskResult::success("done".to_string(), 42));
    assert!(with_script.is_success());
    assert!(with_script.is_completed());
    without_script.start();
    assert_eq!(without_script.status, TaskStatus::Skipped);
    assert!(!without_script.is_failed());
    let finished = vec![with_script, without_script];
    let summary = summarize_tasks(&finished);
    assert_eq!(summary.total, 2);
    assert_eq!(summary.succeeded, 1);
    assert_eq!(summary.failed, 0);
    assert_eq!(summary.skipped, 1);
}

#[test]
fn failed_results_keep_the_exit_code() {
    let result = TaskResult::failure(2, "out".to_string(), "err".to_string(), 10);
    assert_eq!(result.exit_code, 2);
    assert!(!result.success);
    let mut task = Task::new("a".to_string(), "a".to_string(), "x".to_string(), Vec::new())
        .with_scripts(vec!["x".to_string()]);
    task.start();
    task.complete(result);
    assert!(task.is_failed());
}

#[test]
fn executor_plans_one_task_per_stage_member() {
    let mut lib_pkg = WorkspacePackage::new(
        "lib".to_string(),
        "packages/lib".to_string(),
        "/ws/packages/lib".to_string(),
        "1.0.0".to_string(),
        Vec::new(),
        vec![("build".to_string(), "make".to_string())],
    );
    lib_pkg.add_workspace_dependency("other".to_string());
    let app_pkg = WorkspacePackage::new(
        "app".to_string(),
        "packages/app".to_string(),
        "/ws/packages/app".to_string(),
        "1.0.0".to_string(),
        Vec::new(),
        Vec::new(),
    );
    assert!(lib_pkg.has_workspace_dependencies());
    assert!(!app_pkg.has_workspace_dependencies());
    let executor = TaskExecutor::new(TaskConfig::default());
    let stage = vec![lib_pkg, app_pkg];
    let tasks = executor.plan_stage_tasks(&stage, "build");
    assert_eq!(tasks.len(), 2);
    assert_eq!(tasks[0].id, "lib:build");
    assert_eq!(tasks[0].working_directory, "packages/lib");
    assert!(tasks[0].has_script("build"));
    assert!(!tasks[1].has_script("build"));
}

#[test]
fn executor_stops_on_failure_unless_told_to_continue() {
    let mut stop_config = TaskConfig::default();
    stop_config.continue_on_error = false;
    let executor = TaskExecutor::new(stop_config);
    let mut failing = Task::new("a".to_string(), "a".to_string(), "x".to_string(), Vec::new())
        .with_scripts(vec!["x".to_string()]);
    failing.start();
    failing.complete(TaskResult::failure(1, String::new(), "e".to_string(), 1));
    let summary = summarize_tasks(&vec![failing]);
    assert!(executor.should_stop_after_stage(&summary));
    let mut go_on = TaskConfig::default();
    go_on.continue_on_error = true;
    assert!(!TaskExecutor::new(go_on).should_stop_after_stage(&summary));
}
