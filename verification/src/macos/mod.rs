//! The settings of macOS.
pub mod cert_install;
pub mod command_laws;
pub mod system_proxy;
