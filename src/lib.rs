//! A time-to-live cache entry: a key, an optional value (absent for a
//! tombstone) and an absolute expiry instant, with its expiry check and its
//! two-layer binary encoding (the value's payload inside an envelope that
//! also carries the key and the expiry).
pub mod bytes_le;
pub mod entry;
pub mod envelope;

pub use entry::{Entry, EntryTrait};
pub use envelope::{EntryError, Envelope};
