//! Rate-adaptive multipath scheduling: throughput metrics, channel trackers, the
//! congestion window and the chunk bookkeeping of the multipath scheduler.
pub mod buffer_pool;
pub mod metrics;
pub mod multipath;
pub mod tracker;
pub mod window;
