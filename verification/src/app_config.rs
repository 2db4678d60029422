//! The application configuration and its built-in defaults.

use vstd::prelude::*;
use vstd::string::StringExecFns;

verus! {

/// The worker's configuration, merged by the surrounding process from its
/// defaults, configuration files, and the environment.
#[derive(Debug)]
pub struct AppConfig {
    pub base_url: String,
    pub threads: usize,
    pub load_duration: u64,
    pub bulk_size: usize,
    pub client_id: String,
    pub client_secret: String,
    pub max_scan_size: u64,
}

/// The built-in defaults: `threads` many workers, a job batch of 20, a
/// 60-second cycle, and a 128 MB scan cap.
pub open spec fn is_default_config(c: AppConfig, threads: usize) -> bool {
    &&& c.base_url@ == "https://dragonfly.vipyrsec.com"@
    &&& c.threads == threads
    &&& c.load_duration == 60
    &&& c.bulk_size == 20
    &&& c.client_id@.len() == 0
    &&& c.client_secret@.len() == 0
    &&& c.max_scan_size == 128000000
}

impl AppConfig {
    /// The defaults; the worker count is the machine's available
    /// parallelism, which the caller supplies.
    pub fn defaults(available_parallelism: usize) -> (c: AppConfig)
        ensures
            is_default_config(c, available_parallelism),
    {
        AppConfig {
            base_url: String::from_str("https://dragonfly.vipyrsec.com"),
            threads: available_parallelism,
            load_duration: 60,
            bulk_size: 20,
            client_id: String::new(),
            client_secret: String::new(),
            max_scan_size: 128000000,
        }
    }
}

impl Default for AppConfig {
    /// The defaults with a single worker, for when the machine's parallelism
    /// is unknown.
    fn default() -> (c: AppConfig)
        ensures
            is_default_config(c, 1),
    {
        AppConfig::defaults(1)
    }
}

} // verus!
