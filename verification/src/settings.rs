//! Configuration values and their defaults.

use vstd::prelude::*;

verus! {

/// Settings of the mode that follows the feed as it grows.
#[derive(Debug, Clone)]
pub struct CurrentSettings {
    /// Time to start from, in milliseconds since the Unix epoch.
    pub after: i64,
}

impl CurrentSettings {
    /// The start time as a UTC timestamp in milliseconds since the epoch.
    pub fn after_utc(&self) -> (r: i64)
        ensures
            r == self.after,
    {
        self.after
    }
}

/// Settings of the notification stream.
#[derive(Debug, Clone)]
pub struct RedisSettings {
    /// Endpoint of the stream server.
    pub endpoint: String,
    /// Size of the connection pool.
    pub pool_size: usize,
}

/// Settings of the tracker that drives the periodic runs.
#[derive(Debug, Clone)]
pub struct TrackerSettings {
    /// Tick interval in seconds.
    pub interval: i64,
}

/// Settings of the document store.
#[derive(Debug, Clone)]
pub struct ArangoDBSettings {
    pub endpoint: String,
    pub user: String,
    pub password: String,
    pub database: String,
}

/// All settings of the pipeline but those of the file feed, which belong
/// to whoever reads the feed.
#[derive(Debug, Clone)]
pub struct Settings {
    /// Log filter.
    pub log: String,
    /// How many files may be open at once.
    pub max_concurrent_files: usize,
    /// How many reports of one file are taken at a time.
    pub file_chunk_size: usize,
    /// How many tasks may run at once.
    pub max_processing_capacity: usize,
    /// How often a file may fail before it no longer holds back the
    /// resumption time.
    pub max_retries: u8,
    pub arangodb: ArangoDBSettings,
    pub tracker: TrackerSettings,
    pub current: CurrentSettings,
    pub redis: Option<RedisSettings>,
}

impl Settings {
    /// The tick interval in seconds.
    pub fn interval(&self) -> (r: i64)
        ensures
            r == self.tracker.interval,
    {
        self.tracker.interval
    }
}

/// Default start time: 2023-06-27T17:48:50.980Z, in milliseconds since the
/// epoch.
pub fn default_after_ts() -> (r: i64)
    ensures
        r == 1687888130980,
{
    1687888130980
}

pub fn default_max_retries() -> (r: u8)
    ensures
        r == 3,
{
    3
}

pub fn default_max_concurrent_files() -> (r: usize)
    ensures
        r == 16,
{
    16
}

pub fn default_file_chunk_size() -> (r: usize)
    ensures
        r == 600,
{
    600
}

pub fn default_max_processing_capacity() -> (r: usize)
    ensures
        r == 32,
{
    32
}

pub fn default_interval() -> (r: i64)
    ensures
        r == 10,
{
    10
}

pub fn default_log() -> (r: String)
    ensures
        r@ == "arango_etl=debug"@,
{
    "arango_etl=debug".to_owned()
}

pub fn default_redis_pool_size() -> (r: usize)
    ensures
        r == 16,
{
    16
}

pub fn default_redis_endpoint() -> (r: String)
    ensures
        r@ == "redis://localhost:6739"@,
{
    "redis://localhost:6739".to_owned()
}

pub fn default_arangodb_endpoint() -> (r: String)
    ensures
        r@ == "http://localhost:8925"@,
{
    "http://localhost:8925".to_owned()
}

pub fn default_arangodb_user() -> (r: String)
    ensures
        r@ == "root"@,
{
    "root".to_owned()
}

pub fn default_arangodb_password() -> (r: String)
    ensures
        r@ == "arangodb"@,
{
    "arangodb".to_owned()
}

pub fn default_arangodb_database() -> (r: String)
    ensures
        r@ == "iot"@,
{
    "iot".to_owned()
}

} // verus!
