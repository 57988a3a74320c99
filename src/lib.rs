//! Discovery of services announced on the local network, kept in a registry
//! whose entries expire, and projected into file-based scrape targets.

pub mod config;
pub mod decode;
pub mod registry;
pub mod target;
pub mod laws;
