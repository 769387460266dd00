//! The answers of the query service: a page of records with its count, or
//! the per-series shape with counts and cache information.

use vstd::prelude::*;
use crate::cache::copy_records;
use crate::models::{apply_pagination, page_end, page_start, HistoryRecord, QueryParams, QueryResult, QueryResultV2};
use crate::processing::{records_to_series, series_for_some_stamps};

verus! {

/// The requested page of `records`.
pub open spec fn page_of(records: Seq<HistoryRecord>, params: QueryParams) -> Seq<HistoryRecord> {
    records.subrange(
        page_start(records.len(), params.offset) as int,
        page_end(records.len(), params.offset, params.limit) as int,
    )
}

/// The answer from cached records: the page, and the count of all cached
/// records.
pub fn cached_answer(cached: Vec<HistoryRecord>, params: &QueryParams) -> (r: QueryResult)
    ensures
        r.total == cached@.len(),
        r.records@ == page_of(cached@, *params),
{
    let total = cached.len();
    let records = apply_pagination(cached, params.offset, params.limit);
    QueryResult { records, total }
}

/// The answer from freshly fetched records: the page of the processed
/// records, and the count of the records as fetched.
pub fn fetched_answer(raw_count: usize, processed: &Vec<HistoryRecord>, params: &QueryParams) -> (r: QueryResult)
    ensures
        r.total == raw_count,
        r.records@ == page_of(processed@, *params),
{
    let records = apply_pagination(copy_records(processed), params.offset, params.limit);
    QueryResult { records, total: raw_count }
}

/// The per-series answer for processed records.
pub fn series_answer(records: &Vec<HistoryRecord>, total_raw: usize, cache_hit: bool, query_time_ms: u64) -> (r: QueryResultV2)
    ensures
        r.total_raw == total_raw,
        r.total_processed == records@.len(),
        r.cache_hit == cache_hit,
        r.query_time_ms == query_time_ms,
        series_for_some_stamps(r.series@, records@),
{
    QueryResultV2 {
        series: records_to_series(records),
        total_raw,
        total_processed: records.len(),
        cache_hit,
        query_time_ms,
    }
}

} // verus!

verus! {

/// What happened last while answering a query.
#[derive(Debug, Clone, Copy, PartialEq, Eq)]
pub enum QueryEvent {
    /// A request arrived; `force_refresh` asks to bypass the cache.
    Started { force_refresh: bool },
    /// The cache held a fresh result.
    CacheHit,
    /// The cache held no fresh result.
    CacheMiss,
    /// The backing store answered.
    Fetched,
    /// Acquiring a connection or running the query failed.
    FetchFailed,
}

/// What to do next while answering a query.
#[derive(Debug, Clone, Copy, PartialEq, Eq)]
pub enum QueryAction {
    LookUpCache,
    ServeCached,
    FetchFromStore,
    /// Process the fetched records, store them in the cache, then answer.
    ProcessStoreAndServe,
    Fail,
}

/// The request flow: a forced refresh skips the cache lookup, a hit is served
/// from the cache, a miss is fetched, a fetched result is processed and
/// stored before it is served, and a failed fetch ends the request.
pub fn next_query_action(event: QueryEvent) -> (r: QueryAction)
    ensures
        r == (match event {
            QueryEvent::Started { force_refresh } => if force_refresh {
                QueryAction::FetchFromStore
            } else {
                QueryAction::LookUpCache
            },
            QueryEvent::CacheHit => QueryAction::ServeCached,
            QueryEvent::CacheMiss => QueryAction::FetchFromStore,
            QueryEvent::Fetched => QueryAction::ProcessStoreAndServe,
            QueryEvent::FetchFailed => QueryAction::Fail,
        }),
{
    match event {
        QueryEvent::Started { force_refresh } => if force_refresh {
            QueryAction::FetchFromStore
        } else {
            QueryAction::LookUpCache
        },
        QueryEvent::CacheHit => QueryAction::ServeCached,
        QueryEvent::CacheMiss => QueryAction::FetchFromStore,
        QueryEvent::Fetched => QueryAction::ProcessStoreAndServe,
        QueryEvent::FetchFailed => QueryAction::Fail,
    }
}

} // verus!
