//! Cache warm-up: the queries to issue ahead of time and the progress of a
//! warm-up run.

use vstd::prelude::*;
use crate::fingerprint::{CacheKey, key_for};
use crate::models::{DataProcessingConfig, is_blank_config};
use crate::tag_group::copy_texts;
use crate::text::{nat_text, push_nat};
use crate::time::{local_today_day, midnight_text, midnight_text_of};

verus! {

/// One query to run ahead of time.
#[derive(Debug, Clone)]
pub struct WarmupTask {
    pub table: String,
    pub start_time: String,
    pub end_time: String,
    pub tags: Option<Vec<String>>,
    pub processing_config: Option<DataProcessingConfig>,
    pub description: String,
}

/// The tag texts of an optional tag list.
pub open spec fn tags_view(tags: Option<Vec<String>>) -> Option<Seq<String>> {
    match tags {
        Some(t) => Some(t@),
        None => None,
    }
}

/// Processing options are present and blank.
pub open spec fn blank_options(o: Option<DataProcessingConfig>) -> bool {
    match o {
        Some(c) => is_blank_config(c),
        None => false,
    }
}

impl WarmupTask {
    /// A task with the default (blank) processing options.
    pub fn new(table: &str, start_time: &str, end_time: &str, tags: Option<Vec<String>>, description: &str) -> (r: Self)
        ensures
            r.table@ == table@,
            r.start_time@ == start_time@,
            r.end_time@ == end_time@,
            r.tags == tags,
            blank_options(r.processing_config),
            r.description@ == description@,
    {
        WarmupTask {
            table: String::from_str(table),
            start_time: String::from_str(start_time),
            end_time: String::from_str(end_time),
            tags,
            processing_config: Some(DataProcessingConfig::new()),
            description: String::from_str(description),
        }
    }

    pub fn with_processing_config(
        table: &str,
        start_time: &str,
        end_time: &str,
        tags: Option<Vec<String>>,
        processing_config: Option<DataProcessingConfig>,
        description: &str,
    ) -> (r: Self)
        ensures
            r.table@ == table@,
            r.start_time@ == start_time@,
            r.end_time@ == end_time@,
            r.tags == tags,
            r.processing_config == processing_config,
            r.description@ == description@,
    {
        WarmupTask {
            table: String::from_str(table),
            start_time: String::from_str(start_time),
            end_time: String::from_str(end_time),
            tags,
            processing_config,
            description: String::from_str(description),
        }
    }

    /// The cache key of the task's query.
    pub fn to_cache_key(&self) -> (r: CacheKey)
        ensures
            key_for(r, self.table@, self.start_time@, self.end_time@, tags_view(self.tags), self.processing_config),
    {
        let tags: Option<&[String]> = match &self.tags {
            Some(t) => Some(t.as_slice()),
            None => None,
        };
        let config: Option<&DataProcessingConfig> = match &self.processing_config {
            Some(c) => Some(c),
            None => None,
        };
        CacheKey::new(self.table.as_str(), self.start_time.as_str(), self.end_time.as_str(), tags, config)
    }

    /// A field-for-field copy.
    pub fn duplicate(&self) -> (r: Self)
        ensures
            r.table == self.table,
            r.start_time == self.start_time,
            r.end_time == self.end_time,
            tags_view(r.tags) == tags_view(self.tags),
            r.processing_config == self.processing_config,
            r.description == self.description,
    {
        WarmupTask {
            table: self.table.clone(),
            start_time: self.start_time.clone(),
            end_time: self.end_time.clone(),
            tags: match &self.tags {
                Some(t) => Some(copy_texts(t)),
                None => None,
            },
            processing_config: match &self.processing_config {
                Some(c) => Some(c.duplicate()),
                None => None,
            },
            description: self.description.clone(),
        }
    }
}

/// How far a warm-up run has come.
#[derive(Debug, Clone)]
pub struct WarmupProgress {
    pub total: usize,
    pub completed: usize,
    pub current_task: Option<String>,
    pub is_done: bool,
    pub success_count: usize,
    pub failure_count: usize,
}

impl WarmupProgress {
    pub fn new(total: usize) -> (r: Self)
        ensures
            r.total == total,
            r.completed == 0,
            r.current_task.is_none(),
            !r.is_done,
            r.success_count == 0,
            r.failure_count == 0,
    {
        WarmupProgress { total, completed: 0, current_task: None, is_done: false, success_count: 0, failure_count: 0 }
    }

    /// Records one finished task; the run is done once every task finished.
    pub fn update(&mut self, task: &str, success: bool)
        requires
            old(self).completed < usize::MAX,
            old(self).success_count < usize::MAX,
            old(self).failure_count < usize::MAX,
        ensures
            final(self).total == old(self).total,
            final(self).completed == old(self).completed + 1,
            final(self).success_count == old(self).success_count + (if success { 1int } else { 0 }),
            final(self).failure_count == old(self).failure_count + (if success { 0int } else { 1 }),
            final(self).is_done == (old(self).is_done || final(self).completed >= final(self).total),
            final(self).completed >= final(self).total ==> final(self).current_task.is_none(),
            final(self).completed < final(self).total ==> (final(self).current_task matches Some(t) && t@ == task@),
    {
        self.completed = self.completed + 1;
        self.current_task = Some(String::from_str(task));
        if success {
            self.success_count = self.success_count + 1;
        } else {
            self.failure_count = self.failure_count + 1;
        }
        if self.completed >= self.total {
            self.is_done = true;
            self.current_task = None;
        }
    }
}

/// How one warm-up task ended.
#[derive(Debug, Clone, Copy, PartialEq, Eq)]
pub enum WarmupOutcome {
    /// The task's result was already cached; nothing was fetched.
    AlreadyCached,
    /// The result was fetched and processed.
    Fetched,
    /// Fetching failed.
    Failed,
}

impl WarmupProgress {
    /// Records how a task ended and says whether its fetched result is to be
    /// stored in the cache: only a fresh fetch is stored; a cached task counts
    /// as a success, a failed one as a failure.
    pub fn record(&mut self, task: &str, outcome: WarmupOutcome) -> (store: bool)
        requires
            old(self).completed < usize::MAX,
            old(self).success_count < usize::MAX,
            old(self).failure_count < usize::MAX,
        ensures
            store == (outcome == WarmupOutcome::Fetched),
            final(self).total == old(self).total,
            final(self).completed == old(self).completed + 1,
            final(self).success_count == old(self).success_count + (if outcome != WarmupOutcome::Failed { 1int } else { 0 }),
            final(self).failure_count == old(self).failure_count + (if outcome == WarmupOutcome::Failed { 1int } else { 0 }),
            final(self).is_done == (old(self).is_done || final(self).completed >= final(self).total),
    {
        let success = match outcome {
            WarmupOutcome::Failed => false,
            _ => true,
        };
        self.update(task, success);
        match outcome {
            WarmupOutcome::Fetched => true,
            _ => false,
        }
    }
}

/// A source of warm-up tasks.
pub trait WarmupStrategy {
    fn generate_tasks(&self) -> Vec<WarmupTask>;

    fn name(&self) -> &str;
}

/// Warms the last `days` days, one day per task.
#[derive(Debug, Clone)]
pub struct RecentTimeRangeStrategy {
    pub table: String,
    pub tags: Vec<String>,
    pub days: u32,
}

impl RecentTimeRangeStrategy {
    pub fn new(table: &str, tags: Vec<String>, days: u32) -> (r: Self)
        ensures
            r.table@ == table@,
            r.tags == tags,
            r.days == days,
    {
        RecentTimeRangeStrategy { table: String::from_str(table), tags, days }
    }

    /// The tasks for the days before day number `today`: task `k` covers the
    /// day from midnight of `today - k - 1` to midnight of `today - k`. The
    /// list stops at the first day whose midnight is outside the calendar;
    /// it is complete when all the days lie in the years 0 to about 8200.
    pub fn recent_tasks_from(&self, today: i32) -> (r: Vec<WarmupTask>)
        ensures
            r@.len() <= self.days,
            forall|k: int| 0 <= k < r@.len() ==> recent_task_at(#[trigger] r@[k], *self, today as int, k),
            r@.len() < self.days ==> midnight_before(today as int, r@.len() as int).is_none()
                || midnight_before(today as int, r@.len() as int + 1).is_none(),
            today as int - self.days >= 0 && today <= 3_000_000 ==> r@.len() == self.days,
    {
        let mut tasks: Vec<WarmupTask> = Vec::new();
        let mut end = match midnight_text(today) {
            Some(t) => t,
            None => {
                return tasks;
            },
        };
        assert(midnight_before(today as int, 0) == Some(end@));
        let mut d: u32 = 0;
        while d < self.days
            invariant
                0 <= d <= self.days,
                tasks@.len() == d,
                forall|k: int| 0 <= k < tasks@.len() ==> recent_task_at(#[trigger] tasks@[k], *self, today as int, k),
                midnight_before(today as int, d as int) == Some(end@),
            decreases self.days - d,
        {
            let day: i64 = today as i64 - d as i64 - 1;
            if day < i32::MIN as i64 {
                return tasks;
            }
            let start = match midnight_text(day as i32) {
                Some(t) => t,
                None => {
                    return tasks;
                },
            };
            let task = day_task(self.table.as_str(), &self.tags, d, start.as_str(), end.as_str());
            tasks.push(task);
            end = start;
            d = d + 1;
        }
        tasks
    }

    /// The tasks for the days before today's local date; see
    /// `recent_tasks_from`.
    pub fn recent_tasks(&self) -> (r: Vec<WarmupTask>)
        ensures
            exists|today: i32| recent_tasks_for(r@, *self, today),
    {
        let today = local_today_day();
        let r = self.recent_tasks_from(today);
        assert(recent_tasks_for(r@, *self, today));
        r
    }
}

/// Midnight `k` days before day number `today`, if the calendar has it.
pub open spec fn midnight_before(today: int, k: int) -> Option<Seq<char>> {
    if i32::MIN <= today - k <= i32::MAX {
        midnight_text_of((today - k) as i32)
    } else {
        None
    }
}

/// The date part (`%Y-%m-%d`) of a midnight text.
pub open spec fn date_part(s: Seq<char>) -> Seq<char> {
    if s.len() >= 10 { s.take(10) } else { s }
}

/// `t` is the warm-up task for day `day` back (counting from zero), from
/// `start` to `end`, on the given table and tags.
pub open spec fn is_day_task(t: WarmupTask, table: Seq<char>, tags: Seq<String>, day: nat, start: Seq<char>, end: Seq<char>) -> bool {
    &&& t.table@ == table
    &&& t.start_time@ == start
    &&& t.end_time@ == end
    &&& tags_view(t.tags) == Some(tags)
    &&& blank_options(t.processing_config)
    &&& t.description@ == "最近"@ + nat_text(day + 1) + "天数据 ("@ + date_part(start) + ")"@
}

/// `t` is task `k` of the strategy for day number `today`.
pub open spec fn recent_task_at(t: WarmupTask, s: RecentTimeRangeStrategy, today: int, k: int) -> bool {
    &&& midnight_before(today, k) is Some
    &&& midnight_before(today, k + 1) is Some
    &&& is_day_task(t, s.table@, s.tags@, k as nat, midnight_before(today, k + 1)->Some_0, midnight_before(today, k)->Some_0)
}

/// `r` is what `recent_tasks_from` gives for day number `today`.
pub open spec fn recent_tasks_for(r: Seq<WarmupTask>, s: RecentTimeRangeStrategy, today: i32) -> bool {
    &&& r.len() <= s.days
    &&& forall|k: int| 0 <= k < r.len() ==> recent_task_at(#[trigger] r[k], s, today as int, k)
    &&& r.len() < s.days ==> midnight_before(today as int, r.len() as int).is_none()
        || midnight_before(today as int, r.len() as int + 1).is_none()
}

/// The warm-up task for day `day` back (counting from zero), from `start` to
/// `end`, described as the recent day it is.
pub fn day_task(table: &str, tags: &Vec<String>, day: u32, start: &str, end: &str) -> (r: WarmupTask)
    ensures
        is_day_task(r, table@, tags@, day as nat, start@, end@),
{
    let n = start.unicode_len();
    let date = start.substring_char(0, if n < 10 { n } else { 10 });
    let mut description = String::from_str("最近");
    push_nat(&mut description, day as u64 + 1);
    description.append("天数据 (");
    description.append(date);
    description.append(")");
    proof {
        assert(date@ =~= date_part(start@));
    }
    WarmupTask::new(table, start, end, Some(copy_texts(tags)), description.as_str())
}

impl WarmupStrategy for RecentTimeRangeStrategy {
    fn generate_tasks(&self) -> Vec<WarmupTask> {
        self.recent_tasks()
    }

    fn name(&self) -> &str {
        "RecentTimeRange"
    }
}

/// Warms a fixed list of tasks.
#[derive(Debug, Clone)]
pub struct FixedTimeRangeStrategy {
    tasks: Vec<WarmupTask>,
}

impl FixedTimeRangeStrategy {
    pub closed spec fn tasks_view(&self) -> Seq<WarmupTask> {
        self.tasks@
    }

    pub fn new() -> (r: Self)
        ensures
            r.tasks_view().len() == 0,
    {
        FixedTimeRangeStrategy { tasks: Vec::new() }
    }

    pub fn add_task(self, task: WarmupTask) -> (r: Self)
        ensures
            r.tasks_view() == self.tasks_view().push(task),
    {
        let mut s = self;
        s.tasks.push(task);
        s
    }

    /// Copies of the listed tasks, in order.
    pub fn fixed_tasks(&self) -> (r: Vec<WarmupTask>)
        ensures
            r@.len() == self.tasks_view().len(),
            forall|k: int| 0 <= k < r@.len() ==> (#[trigger] r@[k]).table == self.tasks_view()[k].table
                && r@[k].start_time == self.tasks_view()[k].start_time
                && r@[k].end_time == self.tasks_view()[k].end_time
                && tags_view(r@[k].tags) == tags_view(self.tasks_view()[k].tags)
                && r@[k].processing_config == self.tasks_view()[k].processing_config
                && r@[k].description == self.tasks_view()[k].description,
    {
        let mut r: Vec<WarmupTask> = Vec::new();
        let mut i: usize = 0;
        while i < self.tasks.len()
            invariant
                0 <= i <= self.tasks@.len(),
                r@.len() == i,
                forall|k: int| 0 <= k < i ==> (#[trigger] r@[k]).table == self.tasks@[k].table
                    && r@[k].start_time == self.tasks@[k].start_time
                    && r@[k].end_time == self.tasks@[k].end_time
                    && tags_view(r@[k].tags) == tags_view(self.tasks@[k].tags)
                    && r@[k].processing_config == self.tasks@[k].processing_config
                    && r@[k].description == self.tasks@[k].description,
            decreases self.tasks@.len() - i,
        {
            r.push(self.tasks[i].duplicate());
            i = i + 1;
        }
        r
    }
}

impl Default for FixedTimeRangeStrategy {
    fn default() -> (r: Self)
        ensures
            r.tasks_view().len() == 0,
    {
        FixedTimeRangeStrategy::new()
    }
}

impl WarmupStrategy for FixedTimeRangeStrategy {
    fn generate_tasks(&self) -> Vec<WarmupTask> {
        self.fixed_tasks()
    }

    fn name(&self) -> &str {
        "FixedTimeRange"
    }
}

} // verus!
