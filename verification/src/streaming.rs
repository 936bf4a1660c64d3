//! Streaming of emulator pictures to viewers.
pub mod broadcast;
pub mod control;
pub mod dashboard;
pub mod delta;
pub mod frame_hub;
pub mod h264;
pub mod input_log;
pub mod metrics;
pub mod picture;
pub mod protocol;
pub mod viewer;
pub mod yuv;

pub use crate::streaming::broadcast::{
    BroadcastConfig, DashboardBroadcast, KeyframeThrottle, Outgoing, StreamState, in_step,
    law_first_frame_is_whole, law_keyframes_recur, law_recovery_sends_whole_picture,
    law_viewer_shows_what_was_sent, law_viewer_stays_in_step, shown_after,
};
pub use crate::streaming::dashboard::{
    DashboardStep, DashboardViewer, law_dashboard_counters_balance,
    law_dashboard_frames_are_tagged,
};
pub use crate::streaming::frame_hub::{FrameHub, PixelFormat, RawFrame};
pub use crate::streaming::input_log::{InputEvent, InputEventStatus, InputLogBus};
pub use crate::streaming::metrics::{InstanceMetrics, MetricsSnapshot, StreamMetrics};
