//! The post-assembly core of a small social-blog backend, verified with
//! Verus: a bounded-concurrency task scheduler, the registry of posts under
//! composition, the TTL-governed session and invite tables, and the
//! completion pipeline that turns a post being composed into a finished,
//! queryable one.
//!
//! The library computes and decides; everything ambient — the clock,
//! randomness beyond a token's shape, file and network I/O, image decoding,
//! markdown rendering, credential hashing — enters through explicit
//! arguments or stays with the caller.

pub mod blog;
pub mod job;
pub mod joinqueue;
pub mod latest;
pub mod pipeline;
pub mod state;
pub mod table;
pub mod text;
