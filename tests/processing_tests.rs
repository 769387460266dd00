use industry_vis::models::HistoryRecord;
use industry_vis::order::sort_by_key;
use industry_vis::processing::{
    downsample, group_by_tag, parse_timestamp_ms, records_to_series, records_to_series_with, resample_plan,
    resample_plan_with, resampled_records, window_labels,
    smoothing_windows, window_start, with_values,
};

fn test_records(count: usize) -> Vec<HistoryRecord> {
    (0..count)
        .map(|i| {
            HistoryRecord::new(
                format!("2024-01-01T00:{:02}:00.000", i),
                "Tag1".to_string(),
                ((i as f64) + 10.0).to_bits(),
                "Good".to_string(),
            )
        })
        .collect()
}

fn tagged(date_time: &str, tag: &str, value: f64) -> HistoryRecord {
    HistoryRecord::new(date_time.to_string(), tag.to_string(), value.to_bits(), "Good".to_string())
}

const JAN_1_2024_MS: i64 = 1_704_067_200_000;

#[test]
fn test_parse_timestamp() {
    assert!(parse_timestamp_ms("2024-01-01T00:00:00.000").is_some());
    assert!(parse_timestamp_ms("2024-01-01T00:00:00").is_some());
    assert!(parse_timestamp_ms("invalid").is_none());
    assert_eq!(parse_timestamp_ms("2024-01-01T00:00:00"), Some(JAN_1_2024_MS));
    assert_eq!(parse_timestamp_ms("2024-01-01T00:00:01.250"), Some(JAN_1_2024_MS + 1_250));
}

#[test]
fn test_records_to_series() {
    let records = test_records(5);
    let series = records_to_series(&records);
    assert_eq!(series.len(), 1);
    assert_eq!(series[0].tag_name, "Tag1");
    assert_eq!(series[0].data.len(), 5);
}

#[test]
fn records_to_series_two_tags() {
    let records = vec![
        tagged("2024-01-01T00:02:00", "TagB", 3.0),
        tagged("2024-01-01T00:01:00", "TagA", 2.0),
        tagged("2024-01-01T00:00:00", "TagB", 1.0),
        tagged("2024-01-01T00:00:00", "TagA", 0.5),
        tagged("bad", "TagA", 9.0),
    ];
    let stamps = vec![Some(300), Some(200), Some(100), Some(100), None];
    let series = records_to_series_with(&records, &stamps);
    assert_eq!(series.len(), 2);
    assert_eq!(series[0].tag_name, "TagA");
    assert_eq!(series[1].tag_name, "TagB");
    assert_eq!(series[0].data, vec![(0, 9.0f64.to_bits()), (100, 0.5f64.to_bits()), (200, 2.0f64.to_bits())]);
    assert_eq!(series[1].data, vec![(100, 1.0f64.to_bits()), (300, 3.0f64.to_bits())]);
}

#[test]
fn records_to_series_local_times_keep_spacing() {
    let records = vec![
        tagged("2024-07-01T12:02:00", "TagB", 3.0),
        tagged("2024-07-01T12:01:00", "TagA", 2.0),
        tagged("2024-07-01T12:00:00", "TagB", 1.0),
        tagged("bad", "TagA", 9.0),
    ];
    let series = records_to_series(&records);
    assert_eq!(series.len(), 2);
    assert_eq!(series[0].tag_name, "TagA");
    assert_eq!(series[0].data[0], (0, 9.0f64.to_bits()));
    assert_eq!(series[1].data[1].0 - series[1].data[0].0, 120_000);
    assert_eq!(series[1].data[0].1, 1.0f64.to_bits());
}

#[test]
fn test_downsample() {
    let records = test_records(100);
    let result = downsample(records, 10);
    assert!(result.len() <= 10);
}

#[test]
fn downsample_large_series_to_cap() {
    let records: Vec<HistoryRecord> = (0..20000)
        .map(|i| tagged(&format!("2024-01-01T{:02}:{:02}:{:02}", i / 3600 % 24, i / 60 % 60, i % 60), "Tag1", i as f64))
        .collect();
    let result = downsample(records, 5000);
    assert!(result.len() <= 5000);
    assert_eq!(result.len(), 5000);
}

#[test]
fn downsample_below_cap_is_identity() {
    let records = test_records(10);
    let result = downsample(records.clone(), 5000);
    assert_eq!(result, records);
}

#[test]
fn downsample_sorts_by_time_across_tags() {
    let records = vec![
        tagged("2024-01-01T00:03:00", "A", 1.0),
        tagged("2024-01-01T00:01:00", "B", 2.0),
        tagged("2024-01-01T00:02:00", "A", 3.0),
    ];
    let result = downsample(records, 5);
    let times: Vec<&str> = result.iter().map(|r| r.date_time.as_str()).collect();
    assert_eq!(times, vec!["2024-01-01T00:01:00", "2024-01-01T00:02:00", "2024-01-01T00:03:00"]);
}

#[test]
fn group_by_tag_first_appearance() {
    let records = vec![tagged("t1", "B", 1.0), tagged("t2", "A", 2.0), tagged("t3", "B", 3.0)];
    let groups = group_by_tag(&records);
    assert_eq!(groups.len(), 2);
    assert_eq!(groups[0].len(), 2);
    assert_eq!(groups[0][1].date_time, "t3");
    assert_eq!(groups[1][0].tag_name, "A");
}

#[test]
fn sort_records_by_time() {
    let mut records = vec![tagged("b", "X", 1.0), tagged("a", "X", 2.0), tagged("c", "X", 3.0)];
    sort_by_key(&mut records);
    assert_eq!(records[0].date_time, "a");
    assert_eq!(records[2].date_time, "c");
}

#[test]
fn resample_two_minute_windows() {
    let records = test_records(10);
    assert!(resample_plan(&records, 120).len() <= 6);
    let stamps: Vec<Option<i64>> = (0..10).map(|i| Some(JAN_1_2024_MS + 60_000 * i as i64)).collect();
    let plan = resample_plan_with(&stamps, 120);
    assert_eq!(plan.len(), 5);
    for (k, bucket) in plan.iter().enumerate() {
        assert_eq!(bucket.start_ms % 120_000, 0);
        assert_eq!(bucket.start_ms, JAN_1_2024_MS + 120_000 * k as i64);
        assert_eq!(bucket.members, vec![2 * k, 2 * k + 1]);
    }
    let means: Vec<u64> = plan
        .iter()
        .map(|b| {
            let sum: f64 = b.members.iter().map(|&i| f64::from_bits(records[i].tag_val_bits)).sum();
            (sum / b.members.len() as f64).to_bits()
        })
        .collect();
    let labels: Vec<String> = (0..5).map(|k| format!("w{}", k)).collect();
    let out = resampled_records(&records, &plan, &means, &labels);
    assert_eq!(out.len(), 5);
    assert_eq!(out[1].date_time, "w1");
    assert_eq!(f64::from_bits(out[0].tag_val_bits), 10.5);
    assert_eq!(out[0].tag_quality, "Good");
    assert_eq!(window_labels(&plan).len(), 5);
}

#[test]
fn resample_skips_unreadable_timestamps() {
    let records = vec![tagged("bad", "A", 1.0), tagged("2024-07-01T12:00:30", "A", 2.0)];
    let plan = resample_plan(&records, 60);
    assert_eq!(plan.len(), 1);
    assert_eq!(plan[0].members, vec![1]);
}

#[test]
fn window_start_is_floor() {
    assert_eq!(window_start(125, 60), Some(120));
    assert_eq!(window_start(-1, 60), Some(-60));
    assert_eq!(window_start(-60, 60), Some(-60));
    assert_eq!(window_start(i64::MIN, 7), None);
}

#[test]
fn smoothing_keeps_count_and_fields() {
    let records = test_records(10);
    let spans = smoothing_windows(records.len(), 3);
    assert_eq!(spans.len(), 10);
    assert_eq!(spans[0], (0, 2));
    assert_eq!(spans[5], (4, 7));
    assert_eq!(spans[9], (8, 10));
    let values: Vec<u64> = spans
        .iter()
        .map(|&(s, e)| {
            let sum: f64 = records[s..e].iter().map(|r| f64::from_bits(r.tag_val_bits)).sum();
            (sum / (e - s) as f64).to_bits()
        })
        .collect();
    let smoothed = with_values(records.clone(), &values);
    assert_eq!(smoothed.len(), 10);
    for (a, b) in smoothed.iter().zip(records.iter()) {
        assert_eq!(a.date_time, b.date_time);
        assert_eq!(a.tag_name, b.tag_name);
        assert_eq!(a.tag_quality, b.tag_quality);
    }
    assert_eq!(f64::from_bits(smoothed[0].tag_val_bits), 10.5);
    assert_eq!(f64::from_bits(smoothed[5].tag_val_bits), 15.0);
}

#[test]
fn smoothing_does_not_apply_to_short_input() {
    assert!(smoothing_windows(2, 3).is_empty());
    assert!(smoothing_windows(10, 1).is_empty());
}
