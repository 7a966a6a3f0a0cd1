//! The TopSQL aggregation source: ranking, "others" folding and downsampling
//! of per-second records, and the control of the per-instance subscribers.

pub mod backoff;
pub mod controller;
pub mod fold;
pub mod metric;
pub mod retention;
pub mod selection;
pub mod subscriber;
pub mod tidb;
pub mod tikv;
