//! Engine configuration and the defaults a configuration file may leave out.

use vstd::prelude::*;

use crate::text::string_of;

verus! {

/// The engine configuration.
#[derive(Debug, Clone)]
pub struct Config {
    pub server: ServerConfig,
    pub clickhouse: ClickHouseConfig,
    pub models: ModelsConfig,
    pub cache: CacheConfig,
    pub limits: LimitsConfig,
}

/// Where the HTTP server listens.
#[derive(Debug, Clone)]
pub struct ServerConfig {
    /// Bind address. Use "127.0.0.1:3000" for local mode, "0.0.0.0:3000" for server mode.
    pub bind: String,
}

/// The bind address a configuration gets when it names none.
pub fn default_bind() -> (r: String)
    ensures
        r@ == "127.0.0.1:3000"@,
{
    string_of("127.0.0.1:3000")
}

/// How to reach ClickHouse.
#[derive(Debug, Clone)]
pub struct ClickHouseConfig {
    pub url: String,
    pub database: String,
    pub username: Option<String>,
    pub password: Option<String>,
    /// Per-query timeout in seconds.
    pub query_timeout_secs: u64,
    /// Max rows to accept from ClickHouse per sub-query (safety limit).
    pub max_preaggregate_rows: u64,
}

/// The database a configuration gets when it names none.
pub fn default_database() -> (r: String)
    ensures
        r@ == "default"@,
{
    string_of("default")
}

/// The query timeout a configuration gets when it names none.
pub fn default_timeout_secs() -> (r: u64)
    ensures
        r == 30,
{
    30
}

/// The per-sub-query row limit a configuration gets when it names none.
pub fn default_max_preaggregate_rows() -> (r: u64)
    ensures
        r == 500_000,
{
    500_000
}

/// Where the model files are.
#[derive(Debug, Clone)]
pub struct ModelsConfig {
    /// Glob pattern or directory for model TOML files.
    pub path: String,
}

/// The result cache.
#[derive(Debug, Clone, Default)]
pub struct CacheConfig {
    /// Max cache entries.
    pub capacity: u64,
    /// TTL in seconds.
    pub ttl_secs: u64,
}

/// The cache capacity a `[cache]` section gets when it names none.
pub fn default_cache_capacity() -> (r: u64)
    ensures
        r == 1000,
{
    1000
}

/// The cache lifetime in seconds a `[cache]` section gets when it names none.
pub fn default_cache_ttl() -> (r: u64)
    ensures
        r == 300,
{
    300  // 5 minutes

}

/// Default limits, overridable per request.
#[derive(Debug, Clone)]
pub struct LimitsConfig {
    /// Default max cells (overridable per request).
    pub max_cells: u64,
    /// Default max groups (overridable per request).
    pub max_groups: u64,
}

impl Default for LimitsConfig {
    fn default() -> (r: Self)
        ensures
            r.max_cells == 500_000,
            r.max_groups == 200_000,
    {
        LimitsConfig { max_cells: default_max_cells(), max_groups: default_max_groups() }
    }
}

/// The cell limit a configuration gets when it names none.
pub fn default_max_cells() -> (r: u64)
    ensures
        r == 500_000,
{
    500_000
}

/// The group limit a configuration gets when it names none.
pub fn default_max_groups() -> (r: u64)
    ensures
        r == 200_000,
{
    200_000
}

} // verus!
