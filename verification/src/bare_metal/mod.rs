//! The bare-metal HTTP server: requests, replies and the tasks around them.

pub mod reply;
pub mod request;
pub mod tasks;
