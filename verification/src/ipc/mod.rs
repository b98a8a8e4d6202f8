//! The messages that pass between the browser's extension and this host.
pub mod native_messaging;
