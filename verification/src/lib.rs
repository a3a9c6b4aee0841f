//! Core library of a small daemon that connects chat channels to language
//! model providers.

pub mod assoc;
pub mod channel;
pub mod cli;
pub mod config;
pub mod context;
pub mod context_window;
pub mod daemon;
pub mod error;
pub mod home;
pub mod ids;
pub mod json;
pub mod logger;
pub mod message;
pub mod numbers;
pub mod order;
pub mod path;
pub mod plan_store;
pub mod session;
pub mod sorting;
pub mod text;
