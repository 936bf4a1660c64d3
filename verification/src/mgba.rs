//! The emulator's command protocol: messages, their meaning, and the order in which they are sent.
pub mod ipc_transport;
pub mod protocol;
pub mod scheduler;

pub use crate::mgba::protocol::{
    ACK_MESSAGE, ERROR_MARKER, SUCCESS_MARKER, TERMINATION_MARKER, format_message,
};
pub use crate::mgba::scheduler::{
    CommandKind, CommandPriority, CommandResult, CommandScheduler, CommandTrace, SchedulerError,
};
