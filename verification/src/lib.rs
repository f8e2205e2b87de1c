//! A single-writer, single-reader framed message transport over named,
//! fixed-capacity shared segments.
//!
//! A writer appends length-prefixed messages into the newest worker segment
//! and, when one fills up, rotates to a fresh segment whose name it
//! publishes through a dedicated root segment; a reader drains the segments
//! in order, discovering each successor by popping the root segment.  The
//! two sides coordinate through nothing but two single-writer flags inside
//! each segment.
//!
//! The namespace of named segments itself — creation, lookup and unlinking
//! of shared objects — is modelled explicitly by [`SharedMem`], against
//! which every operation of [`Writer`] and [`Reader`] is specified and
//! verified.  The raw POSIX `shm_open`/`mmap` plumbing that carries the
//! same protocol across real address spaces cannot be verified and lives
//! outside this crate.

mod capi;
mod connection_type;
mod queue;
mod reader;
mod shm;
mod writer;

pub use capi::errno;
pub use connection_type::ConnectionType;
pub use queue::Queue;
pub use reader::{Reader, ReaderConnectError, ReaderConnection, ReaderError};
pub use shm::{SharedMem, ShmObject, EINVAL, ENOENT};
pub use writer::{Writer, WriterConnectError, WriterConnection, WriterDisconnectError, WriterError};
