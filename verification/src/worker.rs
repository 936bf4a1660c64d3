//! The worker: one emulator core, driven by requests from the gateway.
pub mod args;
pub mod commands;
pub mod emulator;
pub mod environment;
pub mod pacing;
pub mod video;
