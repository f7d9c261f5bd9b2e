//! A persistent store of event records: a monotonic id allocator, a bounded
//! binary codec for records, and create / read / update / delete over a
//! stable B-tree map.

pub mod codec;
pub mod event;
pub mod laws;
pub mod storage;
pub mod store;
