//! The decisions of the uploaders: what is sent to the object store, in which
//! order, and what its answers mean.

pub mod azure;
pub mod gcs;
pub mod s3;
