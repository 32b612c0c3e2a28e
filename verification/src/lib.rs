//! The core of a caching HTTP proxy: what it keeps, what it serves from the cache, and what
//! it deletes.
pub mod cache;
pub mod config;
pub mod config_laws;
pub mod dashboard;
pub mod error;
pub mod like;
pub mod macos;
pub mod number;
pub mod order;
pub mod outside;
pub mod path;
pub mod proxy;
pub mod size;
pub mod size_laws;
pub mod text;
pub mod text_laws;
