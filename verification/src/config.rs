//! Configuration.

pub mod document;
pub mod dump;
pub mod files;
pub mod host;
pub mod keys;
pub mod laws;
pub mod theme;
