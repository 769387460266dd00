use industry_vis::fingerprint::CacheKey;
use industry_vis::models::DataProcessingConfig;
use industry_vis::warmup::{day_task, FixedTimeRangeStrategy, RecentTimeRangeStrategy, WarmupOutcome, WarmupProgress, WarmupStrategy, WarmupTask};

#[test]
fn test_warmup_task_creation() {
    let task = WarmupTask::new(
        "历史表",
        "2024-01-01T00:00:00",
        "2024-01-02T00:00:00",
        Some(vec!["Tag1".to_string()]),
        "测试任务",
    );
    assert_eq!(task.table, "历史表");
    assert_eq!(task.description, "测试任务");
}

#[test]
fn warmup_task_key_matches_query_key() {
    let task = WarmupTask::new("历史表", "a", "b", Some(vec!["T2".to_string(), "T1".to_string()]), "d");
    let config = DataProcessingConfig::default();
    let key = CacheKey::new("历史表", "a", "b", Some(&["T1".to_string(), "T2".to_string()]), Some(&config));
    assert_eq!(task.to_cache_key(), key);
    let plain = WarmupTask::with_processing_config("历史表", "a", "b", None, None, "d");
    assert_eq!(plain.to_cache_key(), CacheKey::new("历史表", "a", "b", None, None));
}

#[test]
fn warmup_progress_counts() {
    let mut progress = WarmupProgress::new(2);
    progress.update("task1", true);
    assert_eq!(progress.completed, 1);
    assert_eq!(progress.success_count, 1);
    assert_eq!(progress.current_task.as_deref(), Some("task1"));
    assert!(!progress.is_done);
    progress.update("task2", false);
    assert_eq!(progress.failure_count, 1);
    assert!(progress.is_done);
    assert!(progress.current_task.is_none());
}

#[test]
fn test_recent_time_range_strategy() {
    let strategy = RecentTimeRangeStrategy::new("历史表", vec!["Tag1".to_string(), "Tag2".to_string()], 3);
    let tasks = strategy.generate_tasks();
    assert_eq!(tasks.len(), 3);
    assert_eq!(strategy.name(), "RecentTimeRange");
    assert!(tasks[0].description.starts_with("最近1天数据 ("));
    assert_eq!(tasks[1].end_time, tasks[0].start_time);
}

#[test]
fn test_fixed_time_range_strategy() {
    let strategy = FixedTimeRangeStrategy::new()
        .add_task(WarmupTask::new("历史表", "2024-01-01T00:00:00", "2024-01-02T00:00:00", None, "固定任务1"))
        .add_task(WarmupTask::new("历史表", "2024-01-02T00:00:00", "2024-01-03T00:00:00", None, "固定任务2"));
    let tasks = strategy.generate_tasks();
    assert_eq!(tasks.len(), 2);
    assert_eq!(strategy.name(), "FixedTimeRange");
    assert_eq!(tasks[1].description, "固定任务2");
}

#[test]
fn warmup_record_decides_storing() {
    let mut progress = WarmupProgress::new(3);
    assert!(!progress.record("a", WarmupOutcome::AlreadyCached));
    assert!(progress.record("b", WarmupOutcome::Fetched));
    assert!(!progress.record("c", WarmupOutcome::Failed));
    assert_eq!(progress.success_count, 2);
    assert_eq!(progress.failure_count, 1);
    assert!(progress.is_done);
}

#[test]
fn recent_tasks_for_a_given_day() {
    let strategy = RecentTimeRangeStrategy::new("历史表", vec!["Tag1".to_string()], 2);
    let tasks = strategy.recent_tasks_from(738888);
    assert_eq!(tasks.len(), 2);
    assert_eq!(tasks[0].start_time, "2024-01-02T00:00:00");
    assert_eq!(tasks[0].end_time, "2024-01-03T00:00:00");
    assert_eq!(tasks[0].description, "最近1天数据 (2024-01-02)");
    assert_eq!(tasks[1].start_time, "2024-01-01T00:00:00");
    assert_eq!(tasks[1].end_time, "2024-01-02T00:00:00");
    assert_eq!(tasks[1].description, "最近2天数据 (2024-01-01)");
    assert_eq!(tasks[1].tags, Some(vec!["Tag1".to_string()]));
    assert!(strategy.recent_tasks_from(i32::MIN).is_empty());
}

#[test]
fn day_task_describes_its_day() {
    let task = day_task("T", &vec![], 6, "2024-03-09T00:00:00", "2024-03-10T00:00:00");
    assert_eq!(task.description, "最近7天数据 (2024-03-09)");
    assert_eq!(task.table, "T");
    assert_eq!(task.tags, Some(vec![]));
}
