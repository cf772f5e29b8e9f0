//! Framed wire protocol, index reconciliation and sync state machines for a
//! bidirectional file synchronization service.
pub mod client;
pub mod commands;
pub mod config;
pub mod conversions;
pub mod index;
pub mod index_comparer;
pub mod jobs;
pub mod monkey;
pub mod packet_reader;
pub mod packets;
pub mod server;
pub mod strmap;
pub mod transfer;
pub mod wire;
