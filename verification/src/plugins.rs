//! Plugins: what they are told of, what they may ask for, and how they are looked after.

pub mod binary;
pub mod hit;
pub mod host;
pub mod keys;
pub mod layers;
pub mod messages;
pub mod panes;
pub mod round;
pub mod session;
pub mod table;
pub mod theme;
