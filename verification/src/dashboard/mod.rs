//! The dashboard: what it shows of the cache, and what can be done there.
pub mod api;
pub mod api_laws;
pub mod media;
