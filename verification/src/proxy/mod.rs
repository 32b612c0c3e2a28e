//! The proxy: what it does with requests and responses.
pub mod engine;
pub mod exchange;
pub mod handler;
pub mod handler_laws;
pub mod header_laws;
pub mod headers;
pub mod state;
pub mod state_laws;
