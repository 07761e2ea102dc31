//! The per-bus configuration record: which backing tables, streams and
//! region a named bus points at.

use vstd::prelude::*;

verus! {

/// One bus's configuration, loaded wholesale at startup and never merged.
#[derive(Debug, Clone)]
pub struct LeoConfig {
    pub leo_cron: String,
    pub leo_event: String,
    pub leo_firehose_stream: String,
    pub leo_kinesis_stream: String,
    pub leo_s3: String,
    pub leo_settings: String,
    pub leo_stats: String,
    pub leo_stream: String,
    pub leo_system: String,
    pub region: String,
}

/// A field-by-field copy whose value is known, unlike the derived clone.
pub fn clone_config(c: &LeoConfig) -> (r: LeoConfig)
    ensures
        r == *c,
{
    LeoConfig {
        leo_cron: c.leo_cron.clone(),
        leo_event: c.leo_event.clone(),
        leo_firehose_stream: c.leo_firehose_stream.clone(),
        leo_kinesis_stream: c.leo_kinesis_stream.clone(),
        leo_s3: c.leo_s3.clone(),
        leo_settings: c.leo_settings.clone(),
        leo_stats: c.leo_stats.clone(),
        leo_stream: c.leo_stream.clone(),
        leo_system: c.leo_system.clone(),
        region: c.region.clone(),
    }
}

} // verus!
