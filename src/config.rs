//! Settings the library's decisions read.

use vstd::prelude::*;

verus! {

/// Seconds in a day.
pub const SECONDS_PER_DAY: u64 = 86400;

/// Credentials for the remote platform.
pub struct GoogleConfig {
    /// The OAuth client secret, as JSON text.
    pub client_secret: String,
    pub api_key: String,
}

/// Where resolutions are cached, and for how long they stay fresh.
pub struct DatabaseConfig {
    pub cache_db_path: String,
    pub cache_expiry_days: u32,
}

pub struct SettingsConfig {
    pub search_delay_ms: u64,
    pub items_per_page: usize,
    pub request_timeout_seconds: u64,
    pub search_timeout_seconds: u64,
    pub default_log_level: String,
    pub token_cache_file: String,
    pub max_subscription_retries: u32,
    pub continue_on_subscription_failure: bool,
}

pub struct Config {
    pub google: GoogleConfig,
    pub database: DatabaseConfig,
    pub artists: Vec<String>,
    pub settings: SettingsConfig,
}

impl DatabaseConfig {
    /// The freshness window of a cached resolution, in seconds.
    pub fn expiry_window_secs(&self) -> (r: u64)
        ensures
            r == self.cache_expiry_days * SECONDS_PER_DAY,
    {
        self.cache_expiry_days as u64 * SECONDS_PER_DAY
    }
}

} // verus!
