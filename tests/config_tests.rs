use industry_vis::config::{
    AppConfig, CachePerformanceConfig, ChartPerformanceConfig, DatabaseConfig, PerformanceConfig,
    PoolPerformanceConfig, ProcessingPerformanceConfig,
};
use industry_vis::pool::{ConnectionManager, PoolConfig, PoolState};

#[test]
fn config_test_default_config() {
    let config = AppConfig::default();
    assert_eq!(config.database.server, "localhost");
    assert_eq!(config.database.port, 1433);
    assert_eq!(config.database.database, "控制器数据库");
    assert_eq!(config.query.default_table, "历史表");
}

#[test]
fn app_test_default_config() {
    let config = AppConfig::default();
    assert_eq!(config.database.server, "localhost");
    assert_eq!(config.database.port, 1433);
    assert_eq!(config.database.database, "控制器数据库");
    assert_eq!(config.query.default_table, "历史表");
}

#[test]
fn test_database_config_masked() {
    let config = DatabaseConfig {
        server: "192.168.1.1".to_string(),
        port: 1433,
        database: "TestDB".to_string(),
        username: "admin".to_string(),
        password: "secret123".to_string(),
    };
    let masked = config.connection_string_masked();
    assert!(!masked.contains("secret123"));
    assert!(masked.contains("192.168.1.1"));
    assert_eq!(masked, "Server=192.168.1.1;Port=1433;Database=TestDB;User=admin");
}

#[test]
fn test_config_state_creation() {
    let config = AppConfig::default();
    assert_eq!(config.database.port, 1433);
}

#[test]
fn test_default_performance_config() {
    let config = PerformanceConfig::default();
    assert_eq!(config.cache.max_entries, 200);
    assert_eq!(config.cache.ttl_seconds, 1800);
    assert_eq!(config.pool.max_size, 3);
    assert_eq!(config.pool.connection_timeout_secs, 15);
    assert!(config.processing.use_unified_pipeline);
    assert!(config.chart.use_dirty_rect);
}

#[test]
fn test_cache_config_validation() {
    let mut config = CachePerformanceConfig::default();
    assert!(config.validate().is_ok());
    config.max_entries = 5;
    assert!(config.validate().is_err());
    config.max_entries = 100;
    config.ttl_seconds = 30;
    assert!(config.validate().is_err());
}

#[test]
fn cache_config_validation_messages() {
    let mut config = CachePerformanceConfig::default();
    config.max_entries = 1001;
    assert_eq!(config.validate(), Err("max_entries 最大值为 1000".to_string()));
    config.max_entries = 1000;
    config.ttl_seconds = 7201;
    assert_eq!(config.validate(), Err("ttl_seconds 最大值为 7200 秒（2小时）".to_string()));
    config.ttl_seconds = 7200;
    assert_eq!(config.validate(), Ok(()));
}

#[test]
fn test_pool_config_validation() {
    let mut config = PoolPerformanceConfig::default();
    assert!(config.validate().is_ok());
    config.max_size = 0;
    assert!(config.validate().is_err());
    config.max_size = 3;
    config.min_idle = 5;
    assert!(config.validate().is_err());
}

#[test]
fn pool_config_validation_messages() {
    let mut config = PoolPerformanceConfig::default();
    config.max_size = 11;
    assert_eq!(config.validate(), Err("max_size 最大值为 10（桌面应用场景）".to_string()));
    config.max_size = 3;
    config.connection_timeout_secs = 4;
    assert_eq!(config.validate(), Err("connection_timeout_secs 最小值为 5 秒".to_string()));
    config.connection_timeout_secs = 61;
    assert_eq!(config.validate(), Err("connection_timeout_secs 最大值为 60 秒".to_string()));
}

#[test]
fn processing_and_chart_validation() {
    let mut p = ProcessingPerformanceConfig::default();
    assert!(p.validate().is_ok());
    p.large_dataset_threshold = 999;
    assert_eq!(p.validate(), Err("large_dataset_threshold 最小值为 1000".to_string()));
    let mut c = ChartPerformanceConfig::default();
    assert!(c.validate().is_ok());
    c.large_threshold = 499;
    assert_eq!(c.validate(), Err("large_threshold 最小值为 500".to_string()));
    c.large_threshold = 4000;
    assert_eq!(c.validate(), Err("progressive_threshold 应大于等于 large_threshold".to_string()));
    let mut all = PerformanceConfig::default();
    assert!(all.validate().is_ok());
    all.chart = c;
    all.pool.max_size = 0;
    assert_eq!(all.validate(), Err("max_size 最小值为 1".to_string()));
}

#[test]
fn test_high_performance_preset() {
    let config = PerformanceConfig::high_performance();
    assert_eq!(config.cache.max_entries, 500);
    assert_eq!(config.pool.max_size, 5);
    assert!(config.cache.warmup_enabled);
    assert!(config.validate().is_ok());
}

#[test]
fn test_low_resource_preset() {
    let config = PerformanceConfig::low_resource();
    assert_eq!(config.cache.max_entries, 50);
    assert_eq!(config.pool.max_size, 1);
    assert!(!config.cache.warmup_enabled);
    assert!(config.validate().is_ok());
}

#[test]
fn desktop_preset_is_default() {
    assert_eq!(PerformanceConfig::for_desktop(), PerformanceConfig::default());
}

#[test]
fn test_pool_config_default() {
    let config = PoolConfig::default();
    assert_eq!(config.max_size, 5);
    assert_eq!(config.min_idle, Some(1));
}

#[test]
fn test_pool_config_desktop() {
    let config = PoolConfig::for_desktop();
    assert_eq!(config.max_size, 3);
    assert_eq!(config.connection_timeout_secs, 15);
}

#[test]
fn test_connection_manager_creation() {
    let db_config = DatabaseConfig::default();
    let manager = ConnectionManager::new(db_config.clone());
    assert_eq!(manager.config.server, db_config.server);
}

#[test]
fn pool_state_counts_active_connections() {
    let s = PoolState::from_counts(3, 1, 5);
    assert_eq!(s.active_connections, 2);
    let s = PoolState::from_counts(1, 2, 5);
    assert_eq!(s.active_connections, 0);
    assert_eq!(s.max_size, 5);
}
