//! Request, record and processing-option types.

use vstd::prelude::*;

verus! {

/// Default method name for outlier removal when a stored configuration omits it.
pub fn default_outlier_method() -> (r: String)
    ensures
        r@ == "3sigma"@,
{
    String::from_str("3sigma")
}

/// Default resampling interval in seconds when a stored configuration omits it.
pub fn default_resample_interval() -> (r: u32)
    ensures
        r == 60,
{
    60
}

/// Default resampling method when a stored configuration omits it.
pub fn default_resample_method() -> (r: String)
    ensures
        r@ == "mean"@,
{
    String::from_str("mean")
}

/// Default smoothing method when a stored configuration omits it.
pub fn default_smoothing_method() -> (r: String)
    ensures
        r@ == "moving_avg"@,
{
    String::from_str("moving_avg")
}

/// Default smoothing window when a stored configuration omits it.
pub fn default_smoothing_window() -> (r: usize)
    ensures
        r == 5,
{
    5
}

/// One sample of a tag's history.
///
/// `tag_val_bits` holds the sample value as its 64-bit IEEE-754 encoding; the
/// library moves values around but never computes with them.
#[derive(Debug, Clone, PartialEq, Eq)]
pub struct HistoryRecord {
    pub date_time: String,
    pub tag_name: String,
    pub tag_val_bits: u64,
    pub tag_quality: String,
}

impl HistoryRecord {
    pub fn new(date_time: String, tag_name: String, tag_val_bits: u64, tag_quality: String) -> (r: Self)
        ensures
            r.date_time == date_time,
            r.tag_name == tag_name,
            r.tag_val_bits == tag_val_bits,
            r.tag_quality == tag_quality,
    {
        HistoryRecord { date_time, tag_name, tag_val_bits, tag_quality }
    }

    /// A field-for-field copy.
    pub fn duplicate(&self) -> (r: Self)
        ensures
            r == *self,
    {
        HistoryRecord {
            date_time: self.date_time.clone(),
            tag_name: self.tag_name.clone(),
            tag_val_bits: self.tag_val_bits,
            tag_quality: self.tag_quality.clone(),
        }
    }
}

/// Outlier-removal options.
#[derive(Debug, Clone, PartialEq, Eq)]
pub struct OutlierRemovalConfig {
    pub enabled: bool,
    pub method: String,
}

/// Resampling options; `interval` is in seconds.
#[derive(Debug, Clone, PartialEq, Eq)]
pub struct ResampleConfig {
    pub enabled: bool,
    pub interval: u32,
    pub method: String,
}

/// Smoothing options; `window` is a number of points.
#[derive(Debug, Clone, PartialEq, Eq)]
pub struct SmoothingConfig {
    pub enabled: bool,
    pub method: String,
    pub window: usize,
}

/// The processing applied to a query's records.
#[derive(Debug, Clone, PartialEq, Eq)]
pub struct DataProcessingConfig {
    pub outlier_removal: OutlierRemovalConfig,
    pub resample: ResampleConfig,
    pub smoothing: SmoothingConfig,
}

impl Default for OutlierRemovalConfig {
    fn default() -> (r: Self)
        ensures
            !r.enabled,
            r.method@.len() == 0,
    {
        OutlierRemovalConfig { enabled: false, method: String::new() }
    }
}

impl Default for ResampleConfig {
    fn default() -> (r: Self)
        ensures
            !r.enabled,
            r.interval == 0,
            r.method@.len() == 0,
    {
        ResampleConfig { enabled: false, interval: 0, method: String::new() }
    }
}

impl Default for SmoothingConfig {
    fn default() -> (r: Self)
        ensures
            !r.enabled,
            r.window == 0,
            r.method@.len() == 0,
    {
        SmoothingConfig { enabled: false, method: String::new(), window: 0 }
    }
}

/// Every stage is switched off and every option is empty or zero.
pub open spec fn is_blank_config(c: DataProcessingConfig) -> bool {
    &&& !c.outlier_removal.enabled
    &&& c.outlier_removal.method@.len() == 0
    &&& !c.resample.enabled
    &&& c.resample.interval == 0
    &&& c.resample.method@.len() == 0
    &&& !c.smoothing.enabled
    &&& c.smoothing.window == 0
    &&& c.smoothing.method@.len() == 0
}

impl Default for DataProcessingConfig {
    fn default() -> (r: Self)
        ensures
            is_blank_config(r),
    {
        DataProcessingConfig {
            outlier_removal: OutlierRemovalConfig { enabled: false, method: String::new() },
            resample: ResampleConfig { enabled: false, interval: 0, method: String::new() },
            smoothing: SmoothingConfig { enabled: false, method: String::new(), window: 0 },
        }
    }
}

impl DataProcessingConfig {
    pub fn new() -> (r: Self)
        ensures
            is_blank_config(r),
    {
        DataProcessingConfig {
            outlier_removal: OutlierRemovalConfig { enabled: false, method: String::new() },
            resample: ResampleConfig { enabled: false, interval: 0, method: String::new() },
            smoothing: SmoothingConfig { enabled: false, method: String::new(), window: 0 },
        }
    }

    /// Switches outlier removal on with the given method.
    pub fn with_outlier_removal(self, method: &str) -> (r: Self)
        ensures
            r.outlier_removal.enabled,
            r.outlier_removal.method@ == method@,
            r.resample == self.resample,
            r.smoothing == self.smoothing,
    {
        let mut c = self;
        c.outlier_removal.enabled = true;
        c.outlier_removal.method = String::from_str(method);
        c
    }

    /// Switches resampling on with the given interval (seconds) and method.
    pub fn with_resample(self, interval: u32, method: &str) -> (r: Self)
        ensures
            r.resample.enabled,
            r.resample.interval == interval,
            r.resample.method@ == method@,
            r.outlier_removal == self.outlier_removal,
            r.smoothing == self.smoothing,
    {
        let mut c = self;
        c.resample.enabled = true;
        c.resample.interval = interval;
        c.resample.method = String::from_str(method);
        c
    }

    /// Switches smoothing on with the given window and method.
    pub fn with_smoothing(self, window: usize, method: &str) -> (r: Self)
        ensures
            r.smoothing.enabled,
            r.smoothing.window == window,
            r.smoothing.method@ == method@,
            r.outlier_removal == self.outlier_removal,
            r.resample == self.resample,
    {
        let mut c = self;
        c.smoothing.enabled = true;
        c.smoothing.window = window;
        c.smoothing.method = String::from_str(method);
        c
    }

    pub fn has_any_enabled(&self) -> (r: bool)
        ensures
            r == (self.outlier_removal.enabled || self.resample.enabled || self.smoothing.enabled),
    {
        self.outlier_removal.enabled || self.resample.enabled || self.smoothing.enabled
    }

    /// A field-for-field copy.
    pub fn duplicate(&self) -> (r: Self)
        ensures
            r == *self,
    {
        DataProcessingConfig {
            outlier_removal: OutlierRemovalConfig {
                enabled: self.outlier_removal.enabled,
                method: self.outlier_removal.method.clone(),
            },
            resample: ResampleConfig {
                enabled: self.resample.enabled,
                interval: self.resample.interval,
                method: self.resample.method.clone(),
            },
            smoothing: SmoothingConfig {
                enabled: self.smoothing.enabled,
                method: self.smoothing.method.clone(),
                window: self.smoothing.window,
            },
        }
    }
}

/// The per-tag stages that a configuration runs, in pipeline order.
#[derive(Debug, Clone, Copy, PartialEq, Eq)]
pub struct ProcessingStages {
    pub outliers: bool,
    pub resample: bool,
    pub smoothing: bool,
}

impl DataProcessingConfig {
    /// Outlier removal runs when switched on; resampling when switched on with
    /// a positive interval; smoothing when switched on with a window of at
    /// least two points.
    pub fn stages(&self) -> (r: ProcessingStages)
        ensures
            r.outliers == self.outlier_removal.enabled,
            r.resample == (self.resample.enabled && self.resample.interval > 0),
            r.smoothing == (self.smoothing.enabled && self.smoothing.window > 1),
    {
        ProcessingStages {
            outliers: self.outlier_removal.enabled,
            resample: self.resample.enabled && self.resample.interval > 0,
            smoothing: self.smoothing.enabled && self.smoothing.window > 1,
        }
    }
}

/// Parameters of a history query.
#[derive(Debug, Clone)]
pub struct QueryParams {
    pub start_time: String,
    pub end_time: String,
    pub tags: Option<Vec<String>>,
    pub limit: Option<usize>,
    pub offset: Option<usize>,
}

impl QueryParams {
    pub fn new(start_time: String, end_time: String) -> (r: Self)
        ensures
            r.start_time == start_time,
            r.end_time == end_time,
            r.tags.is_none(),
            r.limit.is_none(),
            r.offset.is_none(),
    {
        QueryParams { start_time, end_time, tags: None, limit: None, offset: None }
    }

    pub fn with_tags(self, tags: Vec<String>) -> (r: Self)
        ensures
            r.tags == Some(tags),
            r.start_time == self.start_time,
            r.end_time == self.end_time,
            r.limit == self.limit,
            r.offset == self.offset,
    {
        let mut p = self;
        p.tags = Some(tags);
        p
    }

    pub fn with_pagination(self, offset: usize, limit: usize) -> (r: Self)
        ensures
            r.offset == Some(offset),
            r.limit == Some(limit),
            r.tags == self.tags,
            r.start_time == self.start_time,
            r.end_time == self.end_time,
    {
        let mut p = self;
        p.offset = Some(offset);
        p.limit = Some(limit);
        p
    }
}

/// A page of records with the record count before paging.
#[derive(Debug, Clone)]
pub struct QueryResult {
    pub records: Vec<HistoryRecord>,
    pub total: usize,
}

/// One series for the chart: its tag and its `(timestamp_ms, value)` points,
/// the value again as its IEEE-754 encoding.
#[derive(Debug, Clone)]
pub struct ChartSeriesData {
    pub tag_name: String,
    pub data: Vec<(i64, u64)>,
}

/// Per-series query answer with cache and timing information.
#[derive(Debug, Clone)]
pub struct QueryResultV2 {
    pub series: Vec<ChartSeriesData>,
    pub total_raw: usize,
    pub total_processed: usize,
    pub cache_hit: bool,
    pub query_time_ms: u64,
}

/// Outcome of a connection test.
#[derive(Debug, Clone)]
pub struct ConnectionTestResult {
    pub success: bool,
    pub message: String,
}

impl ConnectionTestResult {
    pub fn success() -> (r: Self)
        ensures
            r.success,
            r.message@ == "连接成功"@,
    {
        ConnectionTestResult { success: true, message: String::from_str("连接成功") }
    }

    pub fn failure(message: String) -> (r: Self)
        ensures
            !r.success,
            r.message == message,
    {
        ConnectionTestResult { success: false, message }
    }
}

/// First index of the page: the offset, at most the length.
pub open spec fn page_start(len: nat, offset: Option<usize>) -> nat {
    match offset {
        Some(o) => if o <= len { o as nat } else { len },
        None => 0,
    }
}

/// One past the last index of the page.
pub open spec fn page_end(len: nat, offset: Option<usize>, limit: Option<usize>) -> nat {
    let s = page_start(len, offset);
    match limit {
        Some(l) => if s + l <= len { (s + l) as nat } else { len },
        None => len,
    }
}

/// Skips `offset` records, then keeps at most `limit`.
pub fn apply_pagination(records: Vec<HistoryRecord>, offset: Option<usize>, limit: Option<usize>) -> (r: Vec<HistoryRecord>)
    ensures
        r@ == records@.subrange(
            page_start(records@.len(), offset) as int,
            page_end(records@.len(), offset, limit) as int,
        ),
{
    let mut all = records;
    let len = all.len();
    let start = match offset {
        Some(o) => if o <= len { o } else { len },
        None => 0,
    };
    let mut page = all.split_off(start);
    match limit {
        Some(l) => {
            if l <= len - start {
                page.truncate(l);
            }
        },
        None => {},
    }
    proof {
        assert(page@ =~= records@.subrange(
            page_start(records@.len(), offset) as int,
            page_end(records@.len(), offset, limit) as int,
        ));
    }
    page
}

} // verus!
