//! Repeatedly poll a directory server and classify each entry as new,
//! unchanged, changed or removed since the previous poll.
//!
//! The library holds the classification engine: the per-entity cache with its
//! snapshots, the comparison cycle that detects deletions, and the decisions
//! that the polling loop takes around each directory query. Entities are told
//! apart by a configured identity attribute; an entity counts as changed when
//! one of the configured tracked attributes reads differently from its stored
//! snapshot.
pub mod bytes;
pub mod cache;
pub mod clock;
pub mod config;
pub mod cycle;
pub mod entry;
pub mod error;
pub mod ids;
pub mod laws;
pub mod snapshots;
pub mod text;

pub use crate::cache::{has_any_attr_changed, Cache, CacheEntries, CacheEntryStatus};
pub use crate::clock::{CivilTime, Timestamp};
pub use crate::config::{
    AttributeConfig, CacheMethod, Config, ConnectionConfig, Searches, TLSConfig, TlsFiles,
};
pub use crate::cycle::{event_for, observe_entry, removal_events, EntryStatus};
pub use crate::entry::{SearchEntryExt, SerializedSearchEntry};
pub use crate::error::Error;
pub use crate::snapshots::EntityMap;
