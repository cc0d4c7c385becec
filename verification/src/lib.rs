//! Verified core of a LAN clipboard-sharing tool: device model, trust
//! policy, configuration records, hex codec, discovery and transport
//! framing, and the cryptographic envelope around clipboard text.

pub mod text;
pub mod hex;
pub mod device;
pub mod config;
pub mod error;
pub mod primitives;
pub mod crypto;
pub mod transport;
pub mod discovery;
pub mod span_discovery;
pub mod ui;
pub mod sync;
pub mod manager;
