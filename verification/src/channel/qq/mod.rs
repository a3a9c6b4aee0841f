//! The QQ channel.

pub mod api;
pub mod cache;
pub mod event;
pub mod pending;
pub mod text;
