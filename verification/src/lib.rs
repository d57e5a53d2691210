//! A minimal file-sharing coordinator: clients register an opaque identity,
//! upload files under it, list them, and download them back.
//!
//! The library holds everything the system decides: the identity registry
//! and its bookkeeping, the transfer engine's admission checks and storage
//! paths, the snapshot that survives restarts, and the exact texts of every
//! reply. The process edge around it — HTTP routes, the multipart stream,
//! disk and network I/O — hands plain values in and takes plain values out.

pub mod hex;
pub mod identity;
pub mod laws;
pub mod registry;
pub mod responses;
pub mod snapshot;
pub mod transfer;
