//! The protocol core of the RekaSerdoba tunnel server.
//!
//! The library decides and computes; sockets, clocks and files are left to the
//! programs around it. Times are handed in as nanoseconds of a clock that does not go
//! back, or as Unix seconds.

// Bytes and texts.
pub mod wire;
pub mod strings;
pub mod base64url;
pub mod table;
pub mod clock;
pub mod error;

// Keys and records.
pub mod crypto;
pub mod secret;
pub mod kdf;
pub mod keys;
pub mod frame;
pub mod replay;
pub mod record;
pub mod fragment;
pub mod packet_batch;

// A session.
pub mod client;
pub mod handshake;
pub mod exchange;
pub mod rekey;
pub mod course;
pub mod session;
pub mod ipv4;
pub mod dispatch;

// The server around its sessions.
pub mod carrier;
pub mod network;
pub mod gate;
pub mod admission;
pub mod migration;
pub mod config;
pub mod edge;
pub mod diagnostics;
pub mod metrics;
