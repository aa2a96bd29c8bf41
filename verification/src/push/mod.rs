//! The items that a push publishes, and the servers that hold them.

pub mod items;
pub mod servers;
