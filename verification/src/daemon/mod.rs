//! How the daemon handles messages.

pub mod active;
pub mod failure;
pub mod resources;
pub mod single_reply;
pub mod status;
pub mod turn;
