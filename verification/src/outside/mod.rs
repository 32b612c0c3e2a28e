//! Calls into outside crates, each behind a contract that is believed, not proved.
pub mod codec;
pub mod digest;
pub mod header;
pub mod json;
pub mod mime;
pub mod policy;
pub mod url;
