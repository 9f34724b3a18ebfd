//! The core of an action server: time values, name resolution with remapping,
//! and the server's bookkeeping of goals.

pub mod action_server;
pub mod config;
pub mod decimal;
pub mod msg;
pub mod naming;
pub mod status_tracker;
pub mod time;
