//! The instructions that a session starts with.

pub mod agents;
pub mod initial;
pub mod mems;
pub mod scope;
pub mod skills;
pub mod system;
