//! The gateway: which requests are let through, and how each is answered.
pub mod admin;
pub mod api;
pub mod commands;
pub mod png;
