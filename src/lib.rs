//! A small filtering DNS forwarder: a verified wire codec, blocker, rewrite
//! table, answer cache, resolver decisions and per-query pipeline.
pub mod buffer;
pub mod text;
pub mod name;
pub mod header;
pub mod record;
pub mod packet;
pub mod block;
pub mod store;
pub mod rewrites;
pub mod cache;
pub mod resolver;
pub mod config;
pub mod pipeline;
pub mod roundtrip;
