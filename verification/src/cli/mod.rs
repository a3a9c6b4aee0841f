//! The command line.

pub mod command;
pub mod doctor;
