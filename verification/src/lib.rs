//! A structured application-logging pipeline.
//!
//! A client-side facade encodes typed key-value log records into a
//! double-buffered staging area; a transport drains the staged bytes into
//! framed binary messages; a collector decodes each frame back into records
//! and appends them to a per-session file. The binary record format, the
//! staging buffer, and the client and server state machines live here as
//! verified code; sockets, files and threads stay in the surrounding
//! application crate.

pub mod buffer;
pub mod client;
pub mod codec;
pub mod kv;
pub mod logger;
pub mod record;
pub mod render;
pub mod session;
pub mod storage;
pub mod text;

pub use client::Builder;
pub use client::LogClient;
pub use client::DEFAULT_BUFFER_SIZE;
pub use client::WS_DEFAULT_PORT;
pub use kv::Value;
pub use kv::KV;
pub use logger::flush;
pub use logger::init_noop;
pub use logger::try_init;
pub use logger::try_init_with_builder;
pub use logger::try_init_with_host;
pub use logger::Log;
pub use logger::SetLoggerError;
pub use record::Level;
pub use record::Metadata;
pub use record::Record;

use vstd::prelude::*;

verus! {

/// The error taxonomy of the pipeline.
#[derive(Clone, Copy, Debug, PartialEq, Eq, Structural)]
pub enum Error {
    /// Malformed encoded bytes (truncation, an unknown tag, a partial record).
    Format,
    /// The write side of the staging buffer lacks spare capacity.
    BufferFull,
    /// Network send or handshake failure.
    Transport,
    /// Filesystem failure on the collector.
    Io,
    /// Second attempt to install the global logger.
    AlreadyInitialized,
}

} // verus!
