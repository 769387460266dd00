//! Application, database and performance settings, with their defaults,
//! presets and validation rules.

use vstd::prelude::*;
use crate::text::{nat_text, push_nat};

verus! {

/// Where the backing store lives and how to log in.
#[derive(Debug, Clone, PartialEq, Eq)]
pub struct DatabaseConfig {
    pub server: String,
    pub port: u16,
    pub database: String,
    pub username: String,
    pub password: String,
}

impl Default for DatabaseConfig {
    fn default() -> (r: Self)
        ensures
            r.server@ == "localhost"@,
            r.port == 1433,
            r.database@ == "控制器数据库"@,
            r.username@ == "sa"@,
            r.password@.len() == 0,
    {
        DatabaseConfig {
            server: String::from_str("localhost"),
            port: 1433,
            database: String::from_str("控制器数据库"),
            username: String::from_str("sa"),
            password: String::new(),
        }
    }
}

/// The connection description shown to users: everything but the password.
pub open spec fn masked_text(c: DatabaseConfig) -> Seq<char> {
    "Server="@ + c.server@ + ";Port="@ + nat_text(c.port as nat) + ";Database="@ + c.database@ + ";User="@
        + c.username@
}

impl DatabaseConfig {
    pub fn connection_string_masked(&self) -> (r: String)
        ensures
            r@ == masked_text(*self),
    {
        let mut s = String::from_str("Server=");
        s.append(self.server.as_str());
        s.append(";Port=");
        push_nat(&mut s, self.port as u64);
        s.append(";Database=");
        s.append(self.database.as_str());
        s.append(";User=");
        s.append(self.username.as_str());
        s
    }

    /// A field-for-field copy.
    pub fn duplicate(&self) -> (r: Self)
        ensures
            r == *self,
    {
        DatabaseConfig {
            server: self.server.clone(),
            port: self.port,
            database: self.database.clone(),
            username: self.username.clone(),
            password: self.password.clone(),
        }
    }
}

/// Query settings.
#[derive(Debug, Clone, PartialEq, Eq)]
pub struct QueryConfig {
    pub default_table: String,
}

impl Default for QueryConfig {
    fn default() -> (r: Self)
        ensures
            r.default_table@ == "历史表"@,
    {
        QueryConfig { default_table: String::from_str("历史表") }
    }
}

/// All application settings.
#[derive(Debug, Clone, PartialEq, Eq)]
pub struct AppConfig {
    pub database: DatabaseConfig,
    pub query: QueryConfig,
}

impl Default for AppConfig {
    fn default() -> (r: Self)
        ensures
            r.database.server@ == "localhost"@,
            r.database.port == 1433,
            r.database.database@ == "控制器数据库"@,
            r.database.username@ == "sa"@,
            r.database.password@.len() == 0,
            r.query.default_table@ == "历史表"@,
    {
        AppConfig { database: DatabaseConfig::default(), query: QueryConfig::default() }
    }
}

/// Cache tuning.
#[derive(Debug, Clone, Copy, PartialEq, Eq)]
pub struct CachePerformanceConfig {
    pub max_entries: usize,
    pub ttl_seconds: u64,
    pub warmup_enabled: bool,
}

/// The first rule that a cache tuning breaks, if any.
pub open spec fn cache_config_error(c: CachePerformanceConfig) -> Option<Seq<char>> {
    if c.max_entries < 10 {
        Some("max_entries 最小值为 10"@)
    } else if c.max_entries > 1000 {
        Some("max_entries 最大值为 1000"@)
    } else if c.ttl_seconds < 60 {
        Some("ttl_seconds 最小值为 60 秒"@)
    } else if c.ttl_seconds > 7200 {
        Some("ttl_seconds 最大值为 7200 秒（2小时）"@)
    } else {
        None
    }
}

/// `r` reports `e`: success when there is no error, else that message.
pub open spec fn reports(r: Result<(), String>, e: Option<Seq<char>>) -> bool {
    match r {
        Ok(_) => e.is_none(),
        Err(m) => e == Some(m@),
    }
}

fn fail(msg: &str) -> (r: Result<(), String>)
    ensures
        r matches Err(m) && m@ == msg@,
{
    Err(String::from_str(msg))
}

impl CachePerformanceConfig {
    pub fn default_max_entries() -> (r: usize)
        ensures
            r == 200,
    {
        200
    }

    pub fn default_ttl_seconds() -> (r: u64)
        ensures
            r == 1800,
    {
        1800
    }

    pub fn validate(&self) -> (r: Result<(), String>)
        ensures
            reports(r, cache_config_error(*self)),
    {
        if self.max_entries < 10 {
            return fail("max_entries 最小值为 10");
        }
        if self.max_entries > 1000 {
            return fail("max_entries 最大值为 1000");
        }
        if self.ttl_seconds < 60 {
            return fail("ttl_seconds 最小值为 60 秒");
        }
        if self.ttl_seconds > 7200 {
            return fail("ttl_seconds 最大值为 7200 秒（2小时）");
        }
        Ok(())
    }
}

impl Default for CachePerformanceConfig {
    fn default() -> (r: Self)
        ensures
            r.max_entries == 200,
            r.ttl_seconds == 1800,
            !r.warmup_enabled,
    {
        CachePerformanceConfig {
            max_entries: CachePerformanceConfig::default_max_entries(),
            ttl_seconds: CachePerformanceConfig::default_ttl_seconds(),
            warmup_enabled: false,
        }
    }
}

/// Connection-pool tuning.
#[derive(Debug, Clone, Copy, PartialEq, Eq)]
pub struct PoolPerformanceConfig {
    pub max_size: u32,
    pub min_idle: u32,
    pub connection_timeout_secs: u64,
    pub idle_timeout_secs: u64,
    pub max_lifetime_secs: u64,
}

/// The first rule that a pool tuning breaks, if any.
pub open spec fn pool_config_error(c: PoolPerformanceConfig) -> Option<Seq<char>> {
    if c.max_size < 1 {
        Some("max_size 最小值为 1"@)
    } else if c.max_size > 10 {
        Some("max_size 最大值为 10（桌面应用场景）"@)
    } else if c.min_idle > c.max_size {
        Some("min_idle 不能大于 max_size"@)
    } else if c.connection_timeout_secs < 5 {
        Some("connection_timeout_secs 最小值为 5 秒"@)
    } else if c.connection_timeout_secs > 60 {
        Some("connection_timeout_secs 最大值为 60 秒"@)
    } else {
        None
    }
}

impl PoolPerformanceConfig {
    pub fn default_max_size() -> (r: u32)
        ensures
            r == 3,
    {
        3
    }

    pub fn default_min_idle() -> (r: u32)
        ensures
            r == 1,
    {
        1
    }

    pub fn default_connection_timeout_secs() -> (r: u64)
        ensures
            r == 15,
    {
        15
    }

    pub fn default_idle_timeout_secs() -> (r: u64)
        ensures
            r == 300,
    {
        300
    }

    pub fn default_max_lifetime_secs() -> (r: u64)
        ensures
            r == 900,
    {
        900
    }

    pub fn validate(&self) -> (r: Result<(), String>)
        ensures
            reports(r, pool_config_error(*self)),
    {
        if self.max_size < 1 {
            return fail("max_size 最小值为 1");
        }
        if self.max_size > 10 {
            return fail("max_size 最大值为 10（桌面应用场景）");
        }
        if self.min_idle > self.max_size {
            return fail("min_idle 不能大于 max_size");
        }
        if self.connection_timeout_secs < 5 {
            return fail("connection_timeout_secs 最小值为 5 秒");
        }
        if self.connection_timeout_secs > 60 {
            return fail("connection_timeout_secs 最大值为 60 秒");
        }
        Ok(())
    }
}

impl Default for PoolPerformanceConfig {
    fn default() -> (r: Self)
        ensures
            r.max_size == 3,
            r.min_idle == 1,
            r.connection_timeout_secs == 15,
            r.idle_timeout_secs == 300,
            r.max_lifetime_secs == 900,
    {
        PoolPerformanceConfig {
            max_size: PoolPerformanceConfig::default_max_size(),
            min_idle: PoolPerformanceConfig::default_min_idle(),
            connection_timeout_secs: PoolPerformanceConfig::default_connection_timeout_secs(),
            idle_timeout_secs: PoolPerformanceConfig::default_idle_timeout_secs(),
            max_lifetime_secs: PoolPerformanceConfig::default_max_lifetime_secs(),
        }
    }
}

/// Processing tuning.
#[derive(Debug, Clone, Copy, PartialEq, Eq)]
pub struct ProcessingPerformanceConfig {
    pub use_unified_pipeline: bool,
    pub large_dataset_threshold: usize,
}

pub open spec fn processing_config_error(c: ProcessingPerformanceConfig) -> Option<Seq<char>> {
    if c.large_dataset_threshold < 1000 {
        Some("large_dataset_threshold 最小值为 1000"@)
    } else {
        None
    }
}

impl ProcessingPerformanceConfig {
    pub fn default_use_unified_pipeline() -> (r: bool)
        ensures
            r,
    {
        true
    }

    pub fn default_large_dataset_threshold() -> (r: usize)
        ensures
            r == 10000,
    {
        10000
    }

    pub fn validate(&self) -> (r: Result<(), String>)
        ensures
            reports(r, processing_config_error(*self)),
    {
        if self.large_dataset_threshold < 1000 {
            return fail("large_dataset_threshold 最小值为 1000");
        }
        Ok(())
    }
}

impl Default for ProcessingPerformanceConfig {
    fn default() -> (r: Self)
        ensures
            r.use_unified_pipeline,
            r.large_dataset_threshold == 10000,
    {
        ProcessingPerformanceConfig {
            use_unified_pipeline: ProcessingPerformanceConfig::default_use_unified_pipeline(),
            large_dataset_threshold: ProcessingPerformanceConfig::default_large_dataset_threshold(),
        }
    }
}

/// Chart-rendering tuning.
#[derive(Debug, Clone, Copy, PartialEq, Eq)]
pub struct ChartPerformanceConfig {
    pub use_dirty_rect: bool,
    pub large_threshold: usize,
    pub progressive_threshold: usize,
}

pub open spec fn chart_config_error(c: ChartPerformanceConfig) -> Option<Seq<char>> {
    if c.large_threshold < 500 {
        Some("large_threshold 最小值为 500"@)
    } else if c.progressive_threshold < c.large_threshold {
        Some("progressive_threshold 应大于等于 large_threshold"@)
    } else {
        None
    }
}

impl ChartPerformanceConfig {
    pub fn default_use_dirty_rect() -> (r: bool)
        ensures
            r,
    {
        true
    }

    pub fn default_large_threshold() -> (r: usize)
        ensures
            r == 2000,
    {
        2000
    }

    pub fn default_progressive_threshold() -> (r: usize)
        ensures
            r == 3000,
    {
        3000
    }

    pub fn validate(&self) -> (r: Result<(), String>)
        ensures
            reports(r, chart_config_error(*self)),
    {
        if self.large_threshold < 500 {
            return fail("large_threshold 最小值为 500");
        }
        if self.progressive_threshold < self.large_threshold {
            return fail("progressive_threshold 应大于等于 large_threshold");
        }
        Ok(())
    }
}

impl Default for ChartPerformanceConfig {
    fn default() -> (r: Self)
        ensures
            r.use_dirty_rect,
            r.large_threshold == 2000,
            r.progressive_threshold == 3000,
    {
        ChartPerformanceConfig {
            use_dirty_rect: ChartPerformanceConfig::default_use_dirty_rect(),
            large_threshold: ChartPerformanceConfig::default_large_threshold(),
            progressive_threshold: ChartPerformanceConfig::default_progressive_threshold(),
        }
    }
}

/// All performance tuning.
#[derive(Debug, Clone, Copy, PartialEq, Eq)]
pub struct PerformanceConfig {
    pub cache: CachePerformanceConfig,
    pub pool: PoolPerformanceConfig,
    pub processing: ProcessingPerformanceConfig,
    pub chart: ChartPerformanceConfig,
}

/// The first rule broken, checking the cache, pool, processing and chart
/// sections in that order.
pub open spec fn performance_config_error(c: PerformanceConfig) -> Option<Seq<char>> {
    if cache_config_error(c.cache).is_some() {
        cache_config_error(c.cache)
    } else if pool_config_error(c.pool).is_some() {
        pool_config_error(c.pool)
    } else if processing_config_error(c.processing).is_some() {
        processing_config_error(c.processing)
    } else {
        chart_config_error(c.chart)
    }
}

/// The defaults of every section.
pub open spec fn is_desktop_default(r: PerformanceConfig) -> bool {
    &&& r.cache.max_entries == 200 && r.cache.ttl_seconds == 1800 && !r.cache.warmup_enabled
    &&& r.pool.max_size == 3 && r.pool.min_idle == 1 && r.pool.connection_timeout_secs == 15
    &&& r.pool.idle_timeout_secs == 300 && r.pool.max_lifetime_secs == 900
    &&& r.processing.use_unified_pipeline && r.processing.large_dataset_threshold == 10000
    &&& r.chart.use_dirty_rect && r.chart.large_threshold == 2000 && r.chart.progressive_threshold == 3000
}

impl Default for PerformanceConfig {
    fn default() -> (r: Self)
        ensures
            is_desktop_default(r),
    {
        PerformanceConfig {
            cache: CachePerformanceConfig::default(),
            pool: PoolPerformanceConfig::default(),
            processing: ProcessingPerformanceConfig::default(),
            chart: ChartPerformanceConfig::default(),
        }
    }
}

impl PerformanceConfig {
    pub fn validate(&self) -> (r: Result<(), String>)
        ensures
            reports(r, performance_config_error(*self)),
    {
        let c = self.cache.validate();
        if c.is_err() {
            return c;
        }
        let p = self.pool.validate();
        if p.is_err() {
            return p;
        }
        let q = self.processing.validate();
        if q.is_err() {
            return q;
        }
        self.chart.validate()
    }

    /// The preset for an ordinary desktop: the defaults.
    pub fn for_desktop() -> (r: Self)
        ensures
            is_desktop_default(r),
    {
        PerformanceConfig::default()
    }

    /// The preset for a well-equipped machine.
    pub fn high_performance() -> (r: Self)
        ensures
            r.cache.max_entries == 500 && r.cache.ttl_seconds == 3600 && r.cache.warmup_enabled,
            r.pool.max_size == 5 && r.pool.min_idle == 2 && r.pool.connection_timeout_secs == 10,
            r.pool.idle_timeout_secs == 600 && r.pool.max_lifetime_secs == 1800,
            r.processing.use_unified_pipeline && r.processing.large_dataset_threshold == 5000,
            r.chart.use_dirty_rect && r.chart.large_threshold == 1000 && r.chart.progressive_threshold == 2000,
    {
        PerformanceConfig {
            cache: CachePerformanceConfig { max_entries: 500, ttl_seconds: 3600, warmup_enabled: true },
            pool: PoolPerformanceConfig {
                max_size: 5,
                min_idle: 2,
                connection_timeout_secs: 10,
                idle_timeout_secs: 600,
                max_lifetime_secs: 1800,
            },
            processing: ProcessingPerformanceConfig { use_unified_pipeline: true, large_dataset_threshold: 5000 },
            chart: ChartPerformanceConfig { use_dirty_rect: true, large_threshold: 1000, progressive_threshold: 2000 },
        }
    }

    /// The preset for a constrained machine.
    pub fn low_resource() -> (r: Self)
        ensures
            r.cache.max_entries == 50 && r.cache.ttl_seconds == 600 && !r.cache.warmup_enabled,
            r.pool.max_size == 1 && r.pool.min_idle == 0 && r.pool.connection_timeout_secs == 30,
            r.pool.idle_timeout_secs == 120 && r.pool.max_lifetime_secs == 300,
            r.processing.use_unified_pipeline && r.processing.large_dataset_threshold == 20000,
            r.chart.use_dirty_rect && r.chart.large_threshold == 5000 && r.chart.progressive_threshold == 8000,
    {
        PerformanceConfig {
            cache: CachePerformanceConfig { max_entries: 50, ttl_seconds: 600, warmup_enabled: false },
            pool: PoolPerformanceConfig {
                max_size: 1,
                min_idle: 0,
                connection_timeout_secs: 30,
                idle_timeout_secs: 120,
                max_lifetime_secs: 300,
            },
            processing: ProcessingPerformanceConfig { use_unified_pipeline: true, large_dataset_threshold: 20000 },
            chart: ChartPerformanceConfig { use_dirty_rect: true, large_threshold: 5000, progressive_threshold: 8000 },
        }
    }
}

} // verus!
