//! Chat channels.

pub mod attachments;
pub mod capability;
pub mod feishu;
pub mod http;
pub mod kinds;
pub mod qq;
pub mod telegram;
pub mod user_input;
