use industry_vis::query::{cached_answer, fetched_answer, next_query_action, series_answer, QueryAction, QueryEvent};
use industry_vis::text::clean_texts;
use industry_vis::models::{
    apply_pagination, default_outlier_method, default_resample_interval, default_resample_method,
    default_smoothing_method, default_smoothing_window, ConnectionTestResult, DataProcessingConfig,
    HistoryRecord, QueryParams,
};

fn minute_records(count: usize) -> Vec<HistoryRecord> {
    (0..count)
        .map(|i| {
            HistoryRecord::new(
                format!("2024-01-01T00:{:02}:00", i),
                "Tag1".to_string(),
                (i as f64).to_bits(),
                "Good".to_string(),
            )
        })
        .collect()
}

#[test]
fn processing_test_default_config() {
    let config = DataProcessingConfig::default();
    assert!(!config.outlier_removal.enabled);
    assert!(!config.resample.enabled);
    assert!(!config.smoothing.enabled);
    assert!(!config.has_any_enabled());
}

#[test]
fn test_config_builder() {
    let config = DataProcessingConfig::new()
        .with_outlier_removal("3sigma")
        .with_resample(60, "mean")
        .with_smoothing(5, "moving_avg");
    assert!(config.outlier_removal.enabled);
    assert_eq!(config.outlier_removal.method, "3sigma");
    assert!(config.resample.enabled);
    assert_eq!(config.resample.interval, 60);
    assert!(config.smoothing.enabled);
    assert_eq!(config.smoothing.window, 5);
    assert!(config.has_any_enabled());
}

#[test]
fn stored_option_defaults() {
    assert_eq!(default_outlier_method(), "3sigma");
    assert_eq!(default_resample_interval(), 60);
    assert_eq!(default_resample_method(), "mean");
    assert_eq!(default_smoothing_method(), "moving_avg");
    assert_eq!(default_smoothing_window(), 5);
}

#[test]
fn test_query_params_builder() {
    let params = QueryParams::new("2024-01-01T00:00:00".to_string(), "2024-01-02T00:00:00".to_string())
        .with_tags(vec!["Tag1".to_string(), "Tag2".to_string()])
        .with_pagination(0, 100);
    assert_eq!(params.tags.as_ref().unwrap().len(), 2);
    assert_eq!(params.offset, Some(0));
    assert_eq!(params.limit, Some(100));
}

#[test]
fn test_connection_test_result() {
    let success = ConnectionTestResult::success();
    assert!(success.success);
    let failure = ConnectionTestResult::failure("连接超时".to_string());
    assert!(!failure.success);
    assert_eq!(failure.message, "连接超时");
}

#[test]
fn test_history_record_creation() {
    let record = HistoryRecord::new(
        "2024-01-01T00:00:00.000".to_string(),
        "Tag1".to_string(),
        123.45f64.to_bits(),
        "Good".to_string(),
    );
    assert_eq!(record.tag_name, "Tag1");
    assert_eq!(f64::from_bits(record.tag_val_bits), 123.45);
}

#[test]
fn test_apply_pagination() {
    let records = minute_records(10);
    let result = apply_pagination(records.clone(), None, None);
    assert_eq!(result.len(), 10);
    let result = apply_pagination(records.clone(), None, Some(5));
    assert_eq!(result.len(), 5);
    let result = apply_pagination(records.clone(), Some(3), None);
    assert_eq!(result.len(), 7);
    let result = apply_pagination(records.clone(), Some(2), Some(3));
    assert_eq!(result.len(), 3);
    assert_eq!(result[0], records[2]);
    let result = apply_pagination(records.clone(), Some(20), Some(3));
    assert!(result.is_empty());
    let result = apply_pagination(records.clone(), Some(8), Some(usize::MAX));
    assert_eq!(result.len(), 2);
}

#[test]
fn query_answers_keep_counts() {
    let records = minute_records(10);
    let params = QueryParams::new("a".to_string(), "b".to_string()).with_pagination(2, 3);
    let cached = cached_answer(records.clone(), &params);
    assert_eq!(cached.total, 10);
    assert_eq!(cached.records, records[2..5].to_vec());
    let fresh = fetched_answer(25, &records, &params);
    assert_eq!(fresh.total, 25);
    assert_eq!(fresh.records.len(), 3);
    let v2 = series_answer(&records, 40, false, 7);
    assert_eq!(v2.total_raw, 40);
    assert_eq!(v2.total_processed, 10);
    assert!(!v2.cache_hit);
    assert_eq!(v2.query_time_ms, 7);
    assert_eq!(v2.series.len(), 1);
}

#[test]
fn stage_plan_follows_switches() {
    let config = DataProcessingConfig::new().with_resample(0, "mean").with_smoothing(1, "moving_avg");
    let stages = config.stages();
    assert!(!stages.outliers && !stages.resample && !stages.smoothing);
    let config = DataProcessingConfig::new()
        .with_outlier_removal("3sigma")
        .with_resample(60, "mean")
        .with_smoothing(2, "moving_avg");
    let stages = config.stages();
    assert!(stages.outliers && stages.resample && stages.smoothing);
}

#[test]
fn query_flow_steps() {
    assert_eq!(next_query_action(QueryEvent::Started { force_refresh: false }), QueryAction::LookUpCache);
    assert_eq!(next_query_action(QueryEvent::Started { force_refresh: true }), QueryAction::FetchFromStore);
    assert_eq!(next_query_action(QueryEvent::CacheHit), QueryAction::ServeCached);
    assert_eq!(next_query_action(QueryEvent::CacheMiss), QueryAction::FetchFromStore);
    assert_eq!(next_query_action(QueryEvent::Fetched), QueryAction::ProcessStoreAndServe);
    assert_eq!(next_query_action(QueryEvent::FetchFailed), QueryAction::Fail);
}

#[test]
fn tag_names_cleaned() {
    let names = vec![" a ".to_string(), "  ".to_string(), "b".to_string(), "\u{3000}".to_string()];
    assert_eq!(clean_texts(&names), vec!["a".to_string(), "b".to_string()]);
}
