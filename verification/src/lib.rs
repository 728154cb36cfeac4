//! A safe, verified session layer for container-archive processing.
//!
//! The crate models the session side of an archive engine: reading and
//! writing container archives entry by entry, bridging arbitrary byte
//! sources and sinks, traversing a filesystem listing with hard-link and
//! sparse-region resolution, and extracting entries to a disk model under
//! a set of extraction flags.  Every operation is specified and verified;
//! file and process I/O stay outside the crate and hand in plain values.

pub mod bridge;
pub mod codec;
pub mod disk;
pub mod entry;
pub mod flags;
pub mod handle;
pub mod reader;
pub mod resolver;
pub mod session;
pub mod status;
pub mod stream;
pub mod writer;

pub use entry::Entry;
pub use entry::EntryData;
pub use entry::EntryType;
pub use entry::ReaderEntry;
pub use entry::WriteEntry;
pub use flags::ExtractFlags;
pub use reader::Reader;
pub use session::ArchiveHandle;
pub use status::Error;
pub use status::IOError;
pub use status::Status;
pub use writer::Finally;
pub use writer::Format;
pub use writer::Writer;
