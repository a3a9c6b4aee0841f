//! The Feishu channel.

pub mod actions;
pub mod api;
pub mod cache;
pub mod card;
pub mod event;
pub mod inbound;
pub mod markdown;
pub mod merge;
pub mod pending;
pub mod settings;
pub mod ws_frame;
