//! Default values of the sink and source options.

use crate::time::Span;
use vstd::prelude::*;

verus! {

/// Seconds between receiving an upload event and starting the upload.
pub fn default_delay_upload_secs() -> (secs: u64)
    ensures
        secs == 10,
{
    10
}

/// Seconds for which a record of an uploaded file suppresses re-uploads.
pub fn default_expire_after_secs() -> (secs: u64)
    ensures
        secs == 1800,
{
    1800
}

/// The delay before the first attempt to reach an upstream again: one second.
pub fn default_init_retry_delay() -> (delay: Span)
    ensures
        delay.nanos == 1_000_000_000,
{
    Span::from_secs(1)
}

/// The time between two looks at the topology of the cluster: thirty seconds.
pub fn default_topology_fetch_interval() -> (interval: Span)
    ensures
        interval.nanos == 30_000_000_000,
{
    Span::from_secs(30)
}

/// Whether heap profiles of TiKV instances are fetched.
pub fn default_enable_tikv_heap_profile() -> (enabled: bool)
    ensures
        !enabled,
{
    false
}

/// The number of statements that keep their own records in each second; zero
/// stands for no limit being configured.
pub fn default_top_n() -> (n: usize)
    ensures
        n == 0,
{
    0
}

/// The interval to which records are downsampled, in seconds; zero and one
/// leave the records as they are.
pub fn default_downsampling_interval() -> (secs: u32)
    ensures
        secs == 0,
{
    0
}

/// The batches of the import sink when nothing else is configured.
#[derive(Clone, Copy, Debug, Default, PartialEq, Eq)]
pub struct VMImportDefaultBatchSettings;

impl VMImportDefaultBatchSettings {
    /// The highest number of events in a batch.
    pub fn max_events() -> (n: Option<usize>)
        ensures
            n == Some(1000usize),
    {
        Some(1000)
    }

    /// The highest number of bytes in a batch: no limit.
    pub fn max_bytes() -> (n: Option<usize>)
        ensures
            n is None,
    {
        None
    }

    /// The time after which a batch is sent, in milliseconds.
    pub fn timeout_millis() -> (ms: u64)
        ensures
            ms == 1000,
    {
        1000
    }
}

/// The endpoint that a batch of the import sink goes to.
#[derive(Debug, Hash, PartialEq, Eq)]
pub struct PartitionKey {
    pub endpoint: String,
}

impl Clone for PartitionKey {
    fn clone(&self) -> (copy: PartitionKey)
        ensures
            copy.endpoint@ == self.endpoint@,
    {
        PartitionKey { endpoint: self.endpoint.clone() }
    }
}

impl PartitionKey {
    /// The key of an endpoint.
    pub fn new(endpoint: String) -> (key: PartitionKey)
        ensures
            key.endpoint == endpoint,
    {
        PartitionKey { endpoint }
    }
}

} // verus!
