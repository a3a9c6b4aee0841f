//! The Telegram channel.

pub mod api;
pub mod outbound;
pub mod pending;
pub mod update;
