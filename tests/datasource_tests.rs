use industry_vis::datasource::{DefaultProfile, ProfileRegistry, SchemaProfile, SourceMetadata, TableInfo};
use industry_vis::error::AppError;

struct TestProfile;

impl SchemaProfile for TestProfile {
    fn name(&self) -> String {
        "test".to_string()
    }

    fn tag_search_sql(&self, limit: usize) -> String {
        format!("SELECT TOP {} TagName FROM TestTags WHERE TagName LIKE @P1", limit)
    }

    fn history_query_sql(&self, table: &str, start_time: &str, end_time: &str, tag_filter: &str) -> String {
        format!(
            "SELECT * FROM [{}] WHERE DateTime BETWEEN '{}' AND '{}' {}",
            table, start_time, end_time, tag_filter
        )
    }

    fn build_tag_filter(&self, tags: Option<&[String]>) -> String {
        DefaultProfile::new().build_tag_filter(tags)
    }
}

#[test]
fn test_profile_name() {
    let profile = TestProfile;
    assert_eq!(profile.name(), "test");
}

#[test]
fn test_tag_search_sql() {
    let profile = TestProfile;
    let sql = profile.tag_search_sql(50);
    assert!(sql.contains("TOP 50"));
    assert!(sql.contains("@P1"));
}

#[test]
fn test_build_tag_filter_empty() {
    let profile = TestProfile;
    assert_eq!(profile.build_tag_filter(None), "");
    assert_eq!(profile.build_tag_filter(Some(&[])), "");
}

#[test]
fn test_build_tag_filter_with_tags() {
    let profile = TestProfile;
    let tags = vec!["Tag1".to_string(), "Tag2".to_string()];
    let filter = profile.build_tag_filter(Some(&tags));
    assert!(filter.contains("TagName IN"));
    assert!(filter.contains("'Tag1'"));
    assert!(filter.contains("'Tag2'"));
    assert_eq!(filter, "AND TagName IN ('Tag1', 'Tag2')");
}

#[test]
fn test_build_tag_filter_escapes_quotes() {
    let profile = TestProfile;
    let tags = vec!["Tag'With'Quotes".to_string()];
    let filter = profile.build_tag_filter(Some(&tags));
    assert!(filter.contains("Tag''With''Quotes"));
}

#[test]
fn test_default_profile_name() {
    let profile = DefaultProfile::new();
    assert_eq!(profile.name(), "default");
}

#[test]
fn test_tag_search_sql_format() {
    let profile = DefaultProfile::new();
    let sql = profile.tag_search_sql(100);
    assert!(sql.contains("TOP 100"));
    assert!(sql.contains("[TagDataBase]"));
    assert!(sql.contains("TagName LIKE @P1"));
    assert!(sql.contains("ORDER BY TagName"));
}

#[test]
fn test_history_query_sql_format() {
    let profile = DefaultProfile::new();
    let sql = profile.history_query_sql("历史表", "2024-01-01T00:00:00", "2024-01-02T00:00:00", "");
    assert!(sql.contains("[历史表]"));
    assert!(sql.contains("WITH (NOLOCK)"));
    assert!(sql.contains("DateTime BETWEEN"));
    assert!(sql.contains("ORDER BY DateTime"));
}

#[test]
fn test_history_query_sql_with_tag_filter() {
    let profile = DefaultProfile::new();
    let filter = profile.build_tag_filter(Some(&["Tag1".to_string(), "Tag2".to_string()]));
    let sql = profile.history_query_sql("历史表", "2024-01-01T00:00:00", "2024-01-02T00:00:00", &filter);
    assert!(sql.contains("AND TagName IN"));
    assert!(sql.contains("'Tag1'"));
    assert!(sql.contains("'Tag2'"));
}

#[test]
fn test_history_query_sql_escapes_table_name() {
    let profile = DefaultProfile::new();
    let sql = profile.history_query_sql("Table]Name", "2024-01-01T00:00:00", "2024-01-02T00:00:00", "");
    assert!(sql.contains("[Table]]Name]"));
}

#[test]
fn test_history_query_sql_escapes_time_quotes() {
    let profile = DefaultProfile::new();
    let sql = profile.history_query_sql("历史表", "2024-01-01'T00:00:00", "2024-01-02T00:00:00", "");
    assert!(sql.contains("2024-01-01''T00:00:00"));
}

#[test]
fn default_profile_columns() {
    let profile = DefaultProfile::new();
    assert_eq!(profile.tag_column_name(), "TagName");
    assert_eq!(profile.datetime_column_name(), "DateTime");
    assert_eq!(profile.value_column_name(), "TagVal");
    assert_eq!(profile.quality_column_name(), "TagQuality");
}

#[test]
fn test_get_default_profile() {
    let profile = ProfileRegistry::get("default").unwrap();
    assert_eq!(profile.name(), "default");
}

#[test]
fn test_get_unknown_profile() {
    let result = ProfileRegistry::get("unknown");
    assert!(result.is_err());
    let err = result.err().unwrap();
    assert!(err.message().contains("未知的 Schema Profile"));
    assert!(err.message().contains("unknown"));
}

#[test]
fn test_default_profile_shortcut() {
    let profile = ProfileRegistry::default_profile();
    assert_eq!(profile.name(), "default");
}

#[test]
fn test_available_profiles() {
    let profiles = ProfileRegistry::available_profiles();
    assert!(profiles.contains(&"default".to_string()));
}

#[test]
fn test_metadata_creation() {
    let meta = SourceMetadata::new("localhost:1433".to_string(), "TestDB".to_string());
    assert_eq!(meta.name, "localhost:1433");
    assert_eq!(meta.database, "TestDB");
}

#[test]
fn test_source_metadata() {
    let meta = SourceMetadata::new("localhost:1433".to_string(), "TestDB".to_string());
    assert_eq!(meta.name, "localhost:1433");
    assert_eq!(meta.database, "TestDB");
}

#[test]
fn test_table_info() {
    let info = TableInfo::new("dbo".to_string(), "History".to_string());
    assert_eq!(info.full_name(), "[dbo].[History]");
}

#[test]
fn test_error_messages() {
    let err = AppError::Config("无效配置".to_string());
    assert!(err.message().contains("无效配置"));
    assert_eq!(err.message(), "配置错误: 无效配置");
    assert_eq!(AppError::DatabaseNotConnected.message(), "数据库未连接");
}

#[test]
fn test_connection_with_hint() {
    let err = AppError::connection_with_hint("error 4060", "TestDB");
    assert!(err.message().contains("不存在"));
    let err = AppError::connection_with_hint("error 18456", "TestDB");
    assert!(err.message().contains("用户名或密码"));
}

#[test]
fn connection_hint_fallbacks() {
    let err = AppError::connection_with_hint("Login failed for user", "TestDB");
    assert!(err.message().contains("登录失败"));
    let err = AppError::connection_with_hint("timeout", "TestDB");
    assert_eq!(err, AppError::Connection("SQL Server 连接失败: timeout".to_string()));
}

#[test]
fn test_is_retryable() {
    assert!(AppError::Connection("timeout".to_string()).is_retryable());
    assert!(AppError::Pool("exhausted".to_string()).is_retryable());
    assert!(!AppError::Validation("invalid".to_string()).is_retryable());
}

#[test]
fn test_is_user_facing() {
    assert!(AppError::Config("bad config".to_string()).is_user_facing());
    assert!(AppError::NotFound("item".to_string()).is_user_facing());
    assert!(!AppError::Internal("panic".to_string()).is_user_facing());
}

#[test]
fn table_full_name_escapes_brackets() {
    let info = TableInfo::new("a]".to_string(), "b]]c".to_string());
    assert_eq!(info.full_name(), "[a]]].[b]]]]c]");
}
