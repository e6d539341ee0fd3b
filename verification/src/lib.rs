//! Verified parts of a block-device image library: a least-recently-used cache whose entries
//! are loaded and written back by an I/O back end, and the layout of binary structures on disk.

pub mod async_lru_cache;
pub mod on_disk_struct;
