//! Inspection helpers for raft-engine WAL data written by GreptimeDB.

pub mod cli;
pub mod decimal;
pub mod hex;
pub mod ipc;
pub mod namespaces;
pub mod records;
pub mod strbuf;
pub mod text;
pub mod varint;
pub mod wal;
pub mod wire;

pub use hex::encode_hex;
pub use text::extract_readable_strings;
pub use wal::extract_wal_entry_strings;
pub use wire::{extract_log_store_entry_data, extract_raft_entry_data};
