use industry_vis::error::AppError;
use industry_vis::tag_group::{ChartConfig, TagGroup, TagGroupConfig, TagGroupConfigManager};

#[test]
fn tag_group_test_create_chart_config() {
    let chart = ChartConfig::new("温度对比".to_string());
    assert_eq!(chart.name, "温度对比");
    assert!(chart.id.starts_with("c"));
    assert!(chart.tags.is_empty());
}

#[test]
fn test_chart_with_tags() {
    let chart = ChartConfig::new("温度".to_string()).with_tags(vec!["T1".to_string(), "T2".to_string()]);
    assert_eq!(chart.tags.len(), 2);
}

#[test]
fn test_chart_validation() {
    let mut chart = ChartConfig::new("超限图表".to_string());
    chart.tags = (0..6).map(|i| format!("tag{}", i)).collect();
    assert!(chart.validate().is_err());
}

#[test]
fn test_chart_tag_limit() {
    let mut chart = ChartConfig::new("超限图表".to_string());
    chart.tags = (0..6).map(|i| format!("tag{}", i)).collect();
    assert!(chart.validate().is_err());
    assert_eq!(chart.validate(), Err("图表 '超限图表' 最多包含 5 个标签，当前 6".to_string()));
    chart.tags.pop();
    assert!(chart.validate().is_ok());
}

#[test]
fn tag_group_test_create_tag_group() {
    let chart = ChartConfig::new("图表1".to_string());
    let group = TagGroup::new("测试分组".to_string(), vec![chart]).unwrap();
    assert_eq!(group.name, "测试分组");
    assert_eq!(group.charts.len(), 1);
    assert!(group.id.starts_with("g"));
    assert_eq!(group.created_at, group.updated_at);
}

#[test]
fn tag_group_test_group_chart_limit() {
    let charts: Vec<ChartConfig> = (0..11).map(|i| ChartConfig::new(format!("图表{}", i))).collect();
    let result = TagGroup::new("超限分组".to_string(), charts);
    assert!(result.is_err());
}

#[test]
fn tag_group_test_empty_name() {
    let result = TagGroup::new("  ".to_string(), vec![]);
    assert!(result.is_err());
    assert_eq!(result.err().unwrap(), "分组名称不能为空");
}

#[test]
fn group_name_is_trimmed() {
    let group = TagGroup::new("  分组  ".to_string(), vec![]).unwrap();
    assert_eq!(group.name, "分组");
}

#[test]
fn tag_group_test_all_tags() {
    let chart1 = ChartConfig::new("图表1".to_string()).with_tags(vec!["tag1".to_string(), "tag2".to_string()]);
    let chart2 = ChartConfig::new("图表2".to_string()).with_tags(vec!["tag2".to_string(), "tag3".to_string()]);
    let group = TagGroup::new("测试".to_string(), vec![chart1, chart2]).unwrap();
    let all_tags = group.all_tags();
    assert_eq!(all_tags, vec!["tag1", "tag2", "tag3"]);
}

#[test]
fn test_update_group() {
    let chart = ChartConfig::new("图表1".to_string());
    let mut group = TagGroup::new("原名称".to_string(), vec![chart]).unwrap();
    let new_chart = ChartConfig::new("新图表".to_string());
    group.update("新名称".to_string(), vec![new_chart], None).unwrap();
    assert_eq!(group.name, "新名称");
    assert_eq!(group.charts.len(), 1);
    assert_eq!(group.charts[0].name, "新图表");
}

#[test]
fn failed_update_changes_nothing() {
    let mut group = TagGroup::new("原名称".to_string(), vec![]).unwrap();
    let before = group.clone();
    assert!(group.update(" ".to_string(), vec![], None).is_err());
    assert_eq!(group.name, before.name);
    assert_eq!(group.updated_at, before.updated_at);
}

#[test]
fn test_create_group() {
    let mut config = TagGroupConfig::new();
    let chart = ChartConfig::new("图表1".to_string());
    let group = config.create_group("测试分组".to_string(), vec![chart]).unwrap();
    assert_eq!(group.name, "测试分组");
    assert_eq!(config.list_groups().len(), 1);
}

#[test]
fn test_duplicate_name_validation() {
    let mut config = TagGroupConfig::new();
    config.create_group("测试分组".to_string(), vec![]).unwrap();
    let result = config.create_group(" 测试分组 ".to_string(), vec![]);
    match result {
        Err(AppError::Validation(m)) => assert!(m.contains("已存在")),
        _ => panic!("a second group of the same name is refused"),
    }
    assert_eq!(config.list_groups().len(), 1);
}

#[test]
fn update_and_delete_groups() {
    let mut config = TagGroupConfig::default();
    let a = TagGroup::with_id("g1".to_string(), "A".to_string(), vec![], "t".to_string(), "t".to_string());
    let b = TagGroup::with_id("g2".to_string(), "B".to_string(), vec![], "t".to_string(), "t".to_string());
    config.groups.push(a);
    config.groups.push(b);
    assert!(matches!(config.update_group("g1", "B".to_string(), vec![], None), Err(AppError::Validation(_))));
    assert!(matches!(config.update_group("g9", "C".to_string(), vec![], None), Err(AppError::NotFound(_))));
    let updated = config.update_group("g1", "C".to_string(), vec![], None).unwrap();
    assert_eq!(updated.name, "C");
    assert_eq!(config.get_group("g1").unwrap().name, "C");
    assert!(matches!(config.delete_group("g9"), Err(AppError::NotFound(_))));
    assert!(config.delete_group("g1").is_ok());
    assert!(config.get_group("g1").is_none());
    let manager = TagGroupConfigManager::from_config(config);
    assert_eq!(manager.list_groups().len(), 1);
    assert_eq!(manager.get_group("g2").unwrap().name, "B");
}

#[test]
fn get_group_mut_changes_in_place() {
    let mut config = TagGroupConfig::new();
    config.groups.push(TagGroup::with_id("g1".to_string(), "A".to_string(), vec![], "t".to_string(), "t".to_string()));
    if let Some(g) = config.get_group_mut("g1") {
        g.name = "Z".to_string();
    }
    assert_eq!(config.get_group("g1").unwrap().name, "Z");
    assert!(config.get_group_mut("none").is_none());
}

#[test]
fn group_name_trims_unicode_white_space() {
    let group = TagGroup::new("\u{3000}分组\t\n".to_string(), vec![]).unwrap();
    assert_eq!(group.name, "分组");
    assert!(TagGroup::new("\u{2003} \u{00A0}".to_string(), vec![]).is_err());
}
