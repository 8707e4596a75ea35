use vstd::prelude::*;

verus! {

broadcast use vstd::string::to_string_from_display_ensures_for_str;

/// Where log batches go.
#[derive(Clone, Debug)]
pub enum LogDestinationInfo {
    LocalFile { path: String },
    Console,
    AmazonS3 { bucket: String, key_prefix: String, region: String },
}

/// How the log sink is run: where it writes, how often it flushes, and how
/// many records a batch holds.
#[derive(Clone, Debug)]
pub struct LoggerConfig {
    pub destination: LogDestinationInfo,
    pub flush_interval_seconds: u64,
    pub batch_size: usize,
}

impl Default for LoggerConfig {
    /// A local file `logs/trade.log`, flushed every minute in batches of 100.
    fn default() -> (r: LoggerConfig)
        ensures
            r.destination matches LogDestinationInfo::LocalFile { path } && path@ == "logs/trade.log"@,
            r.flush_interval_seconds == 60,
            r.batch_size == 100,
    {
        LoggerConfig {
            destination: LogDestinationInfo::LocalFile { path: "logs/trade.log".to_string() },
            flush_interval_seconds: 60,
            batch_size: 100,
        }
    }
}

} // verus!
