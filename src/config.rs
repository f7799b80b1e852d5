//! Configuration records and their defaults. Durations are milliseconds.
use vstd::prelude::*;
use crate::text::{owned, push_str};

verus! {

pub const HTTP_TIMEOUT: u64 = 8000;
pub const HTTP_CONNECT_TIMEOUT: u64 = 2000;
pub const HTTP_POOL_MAX_IDLE: usize = 16;
pub const HTTP_POOL_IDLE_TIMEOUT: u64 = 90000;
pub const HTTP_MAX_REDIRECTS: u8 = 4;
pub const RETRY_MAX_ATTEMPTS: u8 = 4;
pub const RETRY_BASE_BACKOFF: u64 = 250;
pub const RETRY_JITTER: bool = true;

/// The deployment environment.
#[derive(Debug, Clone, Copy, PartialEq, Eq, Structural)]
pub enum AppEnv {
    Dev,
    Staging,
    Prod,
}

/// Who the crawler says it is to the authority.
#[derive(Debug, Clone)]
pub struct IdentityConfig {
    pub app_env: AppEnv,
    pub mb_user_agent: String,
}

/// The identity from the application name and the contact header: the
/// user agent is `<application> <header>`.
pub fn identity_from(application: &str, header: &str) -> (r: IdentityConfig)
    ensures
        r.mb_user_agent@ == application@ + " "@ + header@,
        r.app_env == AppEnv::Dev,
{
    let mut agent = String::new();
    push_str(&mut agent, application);
    push_str(&mut agent, " ");
    push_str(&mut agent, header);
    IdentityConfig { app_env: AppEnv::Dev, mb_user_agent: agent }
}

/// The retry policy of the HTTP layer.
#[derive(Debug, Clone)]
pub struct RetryConfig {
    pub max_attempts: u8,
    pub base_backoff_ms: u64,
    pub jitter: bool,
    pub retryable_statuses: Vec<u16>,
}

impl Default for RetryConfig {
    fn default() -> (r: Self)
        ensures
            r.max_attempts == RETRY_MAX_ATTEMPTS,
            r.base_backoff_ms == RETRY_BASE_BACKOFF,
            r.jitter == RETRY_JITTER,
            r.retryable_statuses@ == seq![429u16, 500u16, 502u16, 503u16, 504u16],
    {
        let statuses: Vec<u16> = vec![429, 500, 502, 503, 504];
        RetryConfig {
            max_attempts: RETRY_MAX_ATTEMPTS,
            base_backoff_ms: RETRY_BASE_BACKOFF,
            jitter: RETRY_JITTER,
            retryable_statuses: statuses,
        }
    }
}

/// Timeouts and pooling of the HTTP client.
#[derive(Debug, Clone)]
pub struct HttpConfig {
    pub timeout_ms: u64,
    pub connect_timeout_ms: u64,
    pub pool_max_idle_per_host: usize,
    pub pool_idle_timeout_ms: u64,
    pub max_redirects: u8,
    pub retry: RetryConfig,
}

impl Default for HttpConfig {
    fn default() -> (r: Self)
        ensures
            r.timeout_ms == HTTP_TIMEOUT,
            r.connect_timeout_ms == HTTP_CONNECT_TIMEOUT,
            r.pool_max_idle_per_host == HTTP_POOL_MAX_IDLE,
            r.pool_idle_timeout_ms == HTTP_POOL_IDLE_TIMEOUT,
            r.max_redirects == HTTP_MAX_REDIRECTS,
            r.retry.max_attempts == RETRY_MAX_ATTEMPTS,
    {
        HttpConfig {
            timeout_ms: HTTP_TIMEOUT,
            connect_timeout_ms: HTTP_CONNECT_TIMEOUT,
            pool_max_idle_per_host: HTTP_POOL_MAX_IDLE,
            pool_idle_timeout_ms: HTTP_POOL_IDLE_TIMEOUT,
            max_redirects: HTTP_MAX_REDIRECTS,
            retry: RetryConfig::default(),
        }
    }
}

/// How raw payloads are compressed.
#[derive(Debug, Clone, Copy, PartialEq, Eq, Structural)]
pub enum RawCompression {
    Uncompressed,
    Gzip,
    Zstd,
}

/// Where data is kept.
#[derive(Debug, Clone)]
pub struct PersistenceConfig {
    pub db_url: String,
    pub raw_store_root: String,
    pub raw_compression: RawCompression,
    pub schema_version: u16,
    pub http_cache_dir: String,
}

impl Default for PersistenceConfig {
    fn default() -> (r: Self)
        ensures
            r.db_url@ == "sqlite:./data/dev.db"@,
            r.raw_store_root@ == "./data/raw"@,
            r.raw_compression == RawCompression::Zstd,
            r.schema_version == 1,
            r.http_cache_dir@ == "./data/http-cache"@,
    {
        PersistenceConfig {
            db_url: owned("sqlite:./data/dev.db"),
            raw_store_root: owned("./data/raw"),
            raw_compression: RawCompression::Zstd,
            schema_version: 1,
            http_cache_dir: owned("./data/http-cache"),
        }
    }
}

/// How titles are normalised before matching.
#[derive(Debug, Clone, Copy, PartialEq, Eq, Structural)]
pub enum TitleNorm {
    AsciiFoldLowerTrim,
    LowerTrim,
    Unchanged,
}

/// Per-service concurrency and queue settings.
#[derive(Debug, Clone)]
pub struct ConcurrencyConfig {
    pub max_inflight: u32,
    pub spotify_concurrency: u16,
    pub musicbrainz_concurrency: u16,
    pub acoustid_concurrency: u16,
    pub task_channel_capacity: usize,
    pub retry_channel_capacity: usize,
    pub queue_poll_interval_ms: u64,
    pub shutdown_grace_ms: u64,
}

impl Default for ConcurrencyConfig {
    fn default() -> (r: Self)
        ensures
            r.max_inflight == 32,
            r.spotify_concurrency == 8,
            r.musicbrainz_concurrency == 1,
            r.acoustid_concurrency == 4,
            r.task_channel_capacity == 1024,
            r.retry_channel_capacity == 256,
            r.queue_poll_interval_ms == 250,
            r.shutdown_grace_ms == 5,
    {
        ConcurrencyConfig {
            max_inflight: 32,
            spotify_concurrency: 8,
            musicbrainz_concurrency: 1,
            acoustid_concurrency: 4,
            task_channel_capacity: 1024,
            retry_channel_capacity: 256,
            queue_poll_interval_ms: 250,
            shutdown_grace_ms: 5,
        }
    }
}

/// The log output format.
#[derive(Debug, Clone, Copy, PartialEq, Eq, Structural)]
pub enum LogFormat {
    Pretty,
    Json,
}

/// The acoustic descriptor service.
#[derive(Debug, Clone)]
pub struct AcousticBrainzConfig {
    pub base_url: String,
}

impl Default for AcousticBrainzConfig {
    fn default() -> (r: Self)
        ensures
            r.base_url@ == "https://acousticbrainz.org/"@,
    {
        AcousticBrainzConfig { base_url: owned("https://acousticbrainz.org/") }
    }
}

/// The tag service.
#[derive(Debug, Clone)]
pub struct LastFmConfig {
    pub base_url: String,
    pub api_key: String,
}

/// The tag service's settings for the key `api_key`.
pub fn lastfm_config(api_key: String) -> (r: LastFmConfig)
    ensures
        r.base_url@ == "https://ws.audioscrobbler.com/2.0/"@,
        r.api_key == api_key,
{
    LastFmConfig { base_url: owned("https://ws.audioscrobbler.com/2.0/"), api_key }
}

/// The release-database service.
#[derive(Debug, Clone)]
pub struct DiscogsConfig {
    pub base_url: String,
    pub api_key: String,
}

/// The release-database service's settings for the key `api_key`.
pub fn discogs_config(api_key: String) -> (r: DiscogsConfig)
    ensures
        r.base_url@ == "https://api.discogs.com/"@,
        r.api_key == api_key,
{
    DiscogsConfig { base_url: owned("https://api.discogs.com/"), api_key }
}

/// Worker limits: concurrency, pacing, polling and retries.
#[derive(Debug, Clone)]
pub struct CrawlerLimits {
    pub musicbrainz_limit: usize,
    pub musicbrainz_ms: u64,
    pub feature_limit: usize,
    pub queue_poll_ms: u64,
    pub http_max_retry: usize,
    pub http_backoff_ms: u64,
}

impl Default for CrawlerLimits {
    fn default() -> (r: Self)
        ensures
            r.musicbrainz_limit == 1,
            r.musicbrainz_ms == 1100,
            r.feature_limit == 4,
            r.queue_poll_ms == 300,
            r.http_max_retry == 3,
            r.http_backoff_ms == 500,
    {
        CrawlerLimits {
            musicbrainz_limit: 1,
            musicbrainz_ms: 1100,
            feature_limit: 4,
            queue_poll_ms: 300,
            http_max_retry: 3,
            http_backoff_ms: 500,
        }
    }
}

} // verus!
