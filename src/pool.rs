//! Connection-pool sizing and observable pool state.

use vstd::prelude::*;
use crate::config::DatabaseConfig;

verus! {

/// Observable state of the connection pool.
#[derive(Debug, Clone, Copy, PartialEq, Eq)]
pub struct PoolState {
    pub connections: u32,
    pub idle_connections: u32,
    pub active_connections: u32,
    pub max_size: u32,
}

impl PoolState {
    /// Builds the state from the pool's raw counters: the connections that are
    /// not idle are active (never below zero).
    pub fn from_counts(connections: u32, idle_connections: u32, max_size: u32) -> (r: PoolState)
        ensures
            r.connections == connections,
            r.idle_connections == idle_connections,
            r.max_size == max_size,
            r.active_connections == (if idle_connections <= connections {
                connections - idle_connections
            } else {
                0
            }),
    {
        PoolState {
            connections,
            idle_connections,
            active_connections: connections.saturating_sub(idle_connections),
            max_size,
        }
    }
}

} // verus!

verus! {

/// Pool sizing and timeouts; absent timeouts never expire.
#[derive(Debug, Clone, Copy, PartialEq, Eq)]
pub struct PoolConfig {
    pub max_size: u32,
    pub min_idle: Option<u32>,
    pub connection_timeout_secs: u64,
    pub idle_timeout_secs: Option<u64>,
    pub max_lifetime_secs: Option<u64>,
}

impl Default for PoolConfig {
    fn default() -> (r: Self)
        ensures
            r.max_size == 5,
            r.min_idle == Some(1u32),
            r.connection_timeout_secs == 30,
            r.idle_timeout_secs == Some(600u64),
            r.max_lifetime_secs == Some(1800u64),
    {
        PoolConfig {
            max_size: 5,
            min_idle: Some(1),
            connection_timeout_secs: 30,
            idle_timeout_secs: Some(600),
            max_lifetime_secs: Some(1800),
        }
    }
}

impl PoolConfig {
    /// Sizing for a desktop: a few connections, quick failure.
    pub fn for_desktop() -> (r: Self)
        ensures
            r.max_size == 3,
            r.min_idle == Some(1u32),
            r.connection_timeout_secs == 15,
            r.idle_timeout_secs == Some(300u64),
            r.max_lifetime_secs == Some(900u64),
    {
        PoolConfig {
            max_size: 3,
            min_idle: Some(1),
            connection_timeout_secs: 15,
            idle_timeout_secs: Some(300),
            max_lifetime_secs: Some(900),
        }
    }
}

/// Opens and checks connections for the pool, with the settings of one
/// database.
#[derive(Debug, Clone)]
pub struct ConnectionManager {
    pub config: DatabaseConfig,
}

impl ConnectionManager {
    pub fn new(config: DatabaseConfig) -> (r: Self)
        ensures
            r.config == config,
    {
        ConnectionManager { config }
    }
}

} // verus!
