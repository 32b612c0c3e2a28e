//! The cache: keys, paths, the index, ranges, policies and eviction.
pub mod assembly;
pub mod content_range;
pub mod entry;
pub mod eviction;
pub mod eviction_laws;
pub mod index;
pub mod index_laws;
pub mod index_op_laws;
pub mod key;
pub mod key_laws;
pub mod policy;
pub mod range;
pub mod range_laws;
pub mod store;
pub mod store_laws;
pub mod video_laws;
pub mod youtube;
