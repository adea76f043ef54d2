//! An append-only layout of byte buffers: each pushed buffer is placed at the smallest
//! offset that its alignment allows after the previous one, and the whole layout is
//! measured in 64 KiB pages.

pub mod layout;
pub mod stack;

pub use layout::PAGE_SIZE_BYTES;
pub use stack::{DataEntry, EntryId, Stack};
