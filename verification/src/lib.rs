//! A gateway for many emulators at once.
//!
//! The gateway lets those in who may use a session ([`auth`], [`gateway`]), sends their commands to
//! the emulators ([`mgba`], [`ipc`], [`instances`]), and shows what the emulators draw to whoever
//! watches ([`streaming`]). Each emulator runs in a worker of its own ([`worker`]).
//!
//! Everything here computes on plain values. Sockets, processes and emulator cores are left to the
//! program around it.
pub mod auth;
pub mod config;
pub mod double;
pub mod gateway;
pub mod ids;
pub mod instances;
pub mod ipc;
pub mod mgba;
pub mod numbers;
pub mod streaming;
pub mod string_map;
pub mod text;
pub mod time;
pub mod wire;
pub mod worker;
