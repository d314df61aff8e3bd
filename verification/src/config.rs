//! Global configuration values, as plain data. Discovering directories
//! and reading the configuration file happen with the caller; the
//! defaults for every numeric setting live here.

use vstd::prelude::*;

verus! {

/// Global configuration values.
#[derive(Debug, Clone, PartialEq, Eq)]
pub struct Config {
    /// The base directory used for resolving relative paths.
    pub base_directory: String,
    /// The number of parallel downloads.
    pub parallel_downloads: u16,
    /// The number of retries.
    pub retries: u16,
    /// The timeout for establishing a connection, in seconds.
    pub timeout_connection: u64,
    /// The timeout for downloading a file, in seconds.
    pub timeout_download: u64,
    /// The user agent to use for HTTP communication.
    pub user_agent: String,
}

impl Config {
    /// A configuration with the default numeric settings: 32 parallel
    /// downloads, 3 retries, 15 seconds to connect, 30 seconds per
    /// download.
    pub fn with_defaults(base_directory: String, user_agent: String) -> (r: Config)
        ensures
            r.base_directory@ == base_directory@,
            r.user_agent@ == user_agent@,
            r.parallel_downloads == 32,
            r.retries == 3,
            r.timeout_connection == 15,
            r.timeout_download == 30,
    {
        Config {
            base_directory,
            parallel_downloads: 32,
            retries: 3,
            timeout_connection: 15,
            timeout_download: 30,
            user_agent,
        }
    }
}

} // verus!
