use monox::scheduler::{
    host_parallelism, AsyncTaskScheduler, SchedulerConfig, TaskResult, WorkOutcome,
};

fn config(max_concurrency: usize, fail_fast: bool) -> SchedulerConfig {
    SchedulerConfig { max_concurrency, timeout_ms: None, fail_fast, verbose: false }
}

#[test]
fn batch_returns_one_result_per_task_in_order() {
    let mut scheduler = AsyncTaskScheduler::new(config(2, false));
    let tasks: Vec<(String, WorkOutcome<u32>)> = vec![
        ("a".to_string(), WorkOutcome::Done(1)),
        ("b".to_string(), WorkOutcome::Error("boom".to_string())),
        ("c".to_string(), WorkOutcome::Done(3)),
    ];
    let results = scheduler.execute_batch(tasks, 0);
    assert_eq!(results.len(), 3);
    assert_eq!(results[0].0, "a");
    assert_eq!(results[1].0, "b");
    assert_eq!(results[2].0, "c");
    assert!(matches!(results[0].1, TaskResult::Success(1)));
    match &results[1].1 {
        TaskResult::Failed(msg) => assert_eq!(msg, "boom"),
        _ => panic!("the failing task must report its message"),
    }
    assert!(matches!(results[2].1, TaskResult::Success(3)));
}

#[test]
fn fail_fast_cancels_every_later_task() {
    let mut scheduler = AsyncTaskScheduler::new(config(4, true));
    let tasks: Vec<(String, WorkOutcome<u32>)> = vec![
        ("a".to_string(), WorkOutcome::Done(1)),
        ("b".to_string(), WorkOutcome::Error("boom".to_string())),
        ("c".to_string(), WorkOutcome::Done(3)),
        ("d".to_string(), WorkOutcome::Done(4)),
    ];
    let results = scheduler.execute_batch(tasks, 0);
    assert!(matches!(results[0].1, TaskResult::Success(1)));
    assert!(matches!(results[1].1, TaskResult::Failed(_)));
    assert!(matches!(results[2].1, TaskResult::Cancelled));
    assert!(matches!(results[3].1, TaskResult::Cancelled));
    assert!(scheduler.should_stop);
    // cancellations are terminal too, so the progress readings reach the total
    assert_eq!(scheduler.progress_log, vec![1, 2, 3, 4]);
    assert_eq!(scheduler.completed_count, 2);
    assert_eq!(scheduler.cancelled_count, 2);
}

#[test]
fn timeouts_are_their_own_terminal_state() {
    let mut scheduler = AsyncTaskScheduler::new(SchedulerConfig {
        max_concurrency: 1,
        timeout_ms: Some(30_000),
        fail_fast: false,
        verbose: false,
    });
    let tasks: Vec<(String, WorkOutcome<u32>)> = vec![
        ("slow".to_string(), WorkOutcome::TimedOut),
        ("fast".to_string(), WorkOutcome::Done(7)),
    ];
    let results = scheduler.execute_batch(tasks, 0);
    assert!(matches!(results[0].1, TaskResult::Timeout));
    assert!(matches!(results[1].1, TaskResult::Success(7)));
    let (completed, total, successful, failed) = scheduler.get_detailed_progress();
    assert_eq!(completed, 2);
    assert_eq!(total, 2);
    assert_eq!(successful, 1);
    assert_eq!(failed, 1);
}

#[test]
fn progress_log_climbs_one_by_one_to_the_total() {
    let mut scheduler = AsyncTaskScheduler::new(config(3, false));
    let tasks: Vec<(String, WorkOutcome<u32>)> = vec![
        ("a".to_string(), WorkOutcome::Done(1)),
        ("b".to_string(), WorkOutcome::Error("e".to_string())),
        ("c".to_string(), WorkOutcome::Done(3)),
    ];
    let _ = scheduler.execute_batch(tasks, 0);
    assert_eq!(scheduler.progress_log, vec![1, 2, 3]);
    let (completed, total) = scheduler.get_progress();
    assert_eq!(completed, 3);
    assert_eq!(total, 3);
}

#[test]
fn cancelled_tasks_still_report_progress() {
    let mut scheduler = AsyncTaskScheduler::new(config(1, true));
    let tasks: Vec<(String, WorkOutcome<u32>)> = vec![
        ("a".to_string(), WorkOutcome::Error("e".to_string())),
        ("b".to_string(), WorkOutcome::Done(2)),
    ];
    let results = scheduler.execute_batch(tasks, 0);
    assert!(matches!(results[1].1, TaskResult::Cancelled));
    assert_eq!(scheduler.progress_log, vec![1, 2]);
    assert_eq!(scheduler.completed_count, 1);
    assert_eq!(scheduler.cancelled_count, 1);
}

#[test]
fn stop_all_cancels_new_tasks() {
    let mut scheduler = AsyncTaskScheduler::new(config(2, false));
    scheduler.stop_all();
    let result: TaskResult<u32> =
        scheduler.execute_task("late".to_string(), WorkOutcome::Done(5), 0);
    assert!(matches!(result, TaskResult::Cancelled));
    assert_eq!(scheduler.task_status.len(), 0);
}

#[test]
fn task_status_records_ids_and_outcomes() {
    let mut scheduler = AsyncTaskScheduler::new(config(2, false));
    let tasks: Vec<(String, WorkOutcome<u32>)> = vec![
        ("good".to_string(), WorkOutcome::Done(1)),
        ("bad".to_string(), WorkOutcome::Error("e".to_string())),
    ];
    let _ = scheduler.execute_batch(tasks, 17);
    let good = scheduler.get_task_status("good").unwrap();
    assert!(good.is_completed && good.is_success);
    assert_eq!(good.started_at_ms, 17);
    let bad = scheduler.get_task_status("bad").unwrap();
    assert!(bad.is_completed && !bad.is_success);
    assert!(scheduler.get_task_status("absent").is_none());
    assert_eq!(scheduler.get_all_task_status().len(), 2);
    assert!(!scheduler.has_running_tasks());
}

#[test]
fn default_configuration_uses_host_parallelism() {
    let default = SchedulerConfig::new_default();
    assert!(default.max_concurrency >= 1);
    assert_eq!(default.max_concurrency, host_parallelism().max(1));
    assert!(default.timeout_ms.is_none());
    assert!(!default.fail_fast);
}
