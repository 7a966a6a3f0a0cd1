//! Verified cores of two observability pipeline extensions: a deduplicating,
//! resumable file-upload sink and a TopSQL aggregation source.

pub mod checkpointer;
pub mod config;
pub mod encoding;
pub mod etag;
pub mod schema_cache;
pub mod set;
pub mod shutdown;
pub mod sink;
pub mod text;
pub mod time;
pub mod topsql;
pub mod uploader;
