//! Utilities shared by the other modules.

pub mod hash;
pub mod time;
