use flate2::read::DeflateDecoder;
use mgba_gateway::streaming::broadcast::{
    KEYFRAME_THROTTLE_MS, KeyframeThrottle, Outgoing, StreamState, encode_frame_payload,
    encode_raw_frame,
};
use mgba_gateway::streaming::control::{ClientMetrics, ViewerControl};
use mgba_gateway::streaming::protocol::{StreamFrameType, decode_stream_frame, encode_keyframe};
use mgba_gateway::streaming::{
    BroadcastConfig, DashboardBroadcast, DashboardViewer, FrameHub, InputEventStatus, InputLogBus,
    PixelFormat, RawFrame, StreamMetrics,
};
use mgba_gateway::time::Timestamp;
use std::io::Read;

fn blank(width: u32, height: u32) -> RawFrame {
    RawFrame {
        width,
        height,
        pitch: width * 4,
        pixel_format: PixelFormat::XRGB8888,
        data: vec![0u8; (width * height * 4) as usize],
        sequence: 0,
        timestamp_ms: 0,
    }
}

fn inflate(data: &[u8]) -> Vec<u8> {
    let mut inflated = Vec::new();
    DeflateDecoder::new(data).read_to_end(&mut inflated).unwrap();
    inflated
}

fn rgba(frame: &RawFrame) -> Vec<u8> {
    inflate(&encode_keyframe(&frame.data, frame.width, frame.height, frame.pitch))
}

// A viewer as the protocol describes it: it keeps one picture and paints tiles over it.
struct Viewer {
    picture: Vec<u8>,
}

impl Viewer {
    fn show(&mut self, bytes: &[u8]) {
        let width = u16::from_be_bytes(bytes[16..18].try_into().unwrap()) as usize;
        let (_, payload) = decode_stream_frame(bytes).unwrap();
        let raw = inflate(&payload);
        match bytes[5] {
            1 => self.picture = raw,
            2 => {
                let field = |at: usize| u16::from_be_bytes([raw[at], raw[at + 1]]) as usize;
                let mut at = 2;
                for _ in 0..field(0) {
                    let (x, y, w, h) = (field(at), field(at + 2), field(at + 4), field(at + 6));
                    at += 8;
                    for row in 0..h {
                        let to = ((y + row) * width + x) * 4;
                        self.picture[to..to + w * 4].copy_from_slice(&raw[at..at + w * 4]);
                        at += w * 4;
                    }
                }
                assert_eq!(at, raw.len());
            }
            other => panic!("unexpected frame type {other}"),
        }
    }
}

fn made(
    state: &mut StreamState,
    frame: &RawFrame,
    config: &BroadcastConfig,
) -> Outgoing {
    state.next_frame(frame, 3, config).unwrap()
}

#[test]
fn a_viewer_follows_the_pictures_that_are_sent() {
    let config = BroadcastConfig {
        keyframe_interval: 7,
        tile_size: 8,
        ..BroadcastConfig::default()
    };
    let mut state = StreamState::new();
    let mut viewer = Viewer { picture: Vec::new() };
    let mut frame = blank(50, 30);
    let mut kinds = Vec::new();
    for step in 0..20usize {
        for change in 0..step % 4 {
            let at = (step * 977 + change * 3571) % frame.data.len();
            frame.data[at] = frame.data[at].wrapping_add(1 + step as u8);
        }
        let out = made(&mut state, &frame, &config);
        assert!(out.fits);
        kinds.push(out.frame_type);
        if step % 5 == 3 {
            state.dropped(out.frame_type);
            continue;
        }
        viewer.show(&out.bytes);
        state.delivered(frame.copy());
        assert_eq!(viewer.picture, rgba(&frame));
    }
    assert_eq!(kinds[0], StreamFrameType::Keyframe);
    assert_eq!(kinds[1], StreamFrameType::Delta);
    assert_eq!(kinds[4], StreamFrameType::Keyframe);
    assert_eq!(kinds[7], StreamFrameType::Keyframe);
    assert_eq!(kinds[14], StreamFrameType::Keyframe);
}

#[test]
fn whole_pictures_recur_at_the_interval() {
    for interval in 1..6u32 {
        let config = BroadcastConfig {
            keyframe_interval: interval,
            ..BroadcastConfig::default()
        };
        let mut state = StreamState::new();
        let frame = blank(4, 4);
        for count in 0..20u32 {
            let out = made(&mut state, &frame, &config);
            let whole = out.frame_type == StreamFrameType::Keyframe;
            assert_eq!(whole, count % interval == 0, "{interval} {count}");
            state.delivered(frame.copy());
        }
    }
}

#[test]
fn a_requested_whole_picture_is_sent_next() {
    let config = BroadcastConfig::default();
    let mut state = StreamState::new();
    let frame = blank(4, 4);
    made(&mut state, &frame, &config);
    state.delivered(frame.copy());
    assert_eq!(made(&mut state, &frame, &config).frame_type, StreamFrameType::Delta);
    state.request_keyframe();
    assert_eq!(made(&mut state, &frame, &config).frame_type, StreamFrameType::Keyframe);
    assert_eq!(made(&mut state, &frame, &config).frame_type, StreamFrameType::Delta);
}

#[test]
fn long_frames_are_dropped_and_made_up_for() {
    let config = BroadcastConfig {
        backpressure_limit: 60,
        ..BroadcastConfig::default()
    };
    let mut state = StreamState::new();
    let frame = blank(4, 4);
    assert!(made(&mut state, &frame, &config).fits);
    state.delivered(frame.copy());
    let mut noisy = blank(4, 4);
    for (i, byte) in noisy.data.iter_mut().enumerate() {
        *byte = (i * 89 % 251) as u8;
    }
    let out = made(&mut state, &noisy, &config);
    assert_eq!(out.frame_type, StreamFrameType::Delta);
    assert!(!out.fits);
    state.dropped(out.frame_type);
    assert!(state.recovery_mode);
    assert_eq!(made(&mut state, &frame, &config).frame_type, StreamFrameType::Keyframe);
    assert!(!state.recovery_mode);
}

#[test]
fn short_buffers_give_no_frame() {
    let config = BroadcastConfig::default();
    let mut state = StreamState::new();
    let mut frame = blank(4, 4);
    frame.data.truncate(62);
    assert!(state.next_frame(&frame, 0, &config).is_none());
    frame.data.push(0);
    assert!(state.next_frame(&frame, 0, &config).is_some());
    assert!(encode_frame_payload(&blank(4, 4), Some(&blank(2, 2)), false, 16).is_none());
}

#[test]
fn frames_carry_the_low_bits_of_their_numbers() {
    let mut frame = blank(2, 2);
    frame.sequence = 0x1_0000_0002;
    frame.timestamp_ms = 0x3_0000_0004;
    let bytes = encode_raw_frame(&frame, StreamFrameType::Keyframe, vec![9], 5, 16);
    assert_eq!(bytes[6], 5);
    assert_eq!(&bytes[8..12], &[0, 0, 0, 2]);
    assert_eq!(&bytes[12..16], &[0, 0, 0, 4]);
    assert_eq!(&bytes[16..22], &[0, 2, 0, 2, 0, 16]);
    assert_eq!(&bytes[22..26], &[0, 0, 0, 16]);
    assert_eq!(decode_stream_frame(&bytes).unwrap(), (vec![], vec![9]));
}

#[test]
fn keyframe_cached_on_push() {
    let mut hub = FrameHub::new();
    hub.register_instance("inst-1");
    let broadcast = DashboardBroadcast::new();
    hub.push_frame("inst-1", blank(240, 160), 16);
    assert!(broadcast.greeting("inst-1").is_none());
}

#[test]
fn newcomers_are_sent_the_last_whole_picture() {
    let mut broadcast = DashboardBroadcast::new();
    let mut state = StreamState::new();
    let frame = blank(4, 4);
    let out = broadcast.produce(&mut state, "a", &frame, 0).unwrap();
    assert_eq!(broadcast.greeting("a"), Some(&out.bytes));
    broadcast.delivered(&mut state, "a", frame.copy(), false);
    let delta = broadcast.produce(&mut state, "a", &frame, 0).unwrap();
    assert_eq!(delta.frame_type, StreamFrameType::Delta);
    assert_eq!(broadcast.greeting("a"), Some(&out.bytes));
    broadcast.dropped(&mut state, "a", delta.frame_type, false);
    broadcast.forget_keyframe("b");
    assert!(broadcast.greeting("a").is_some());
    broadcast.forget_keyframe("a");
    assert!(broadcast.greeting("a").is_none());
    broadcast.produce(&mut state, "a", &frame, 0).unwrap();
    assert!(broadcast.greeting("a").is_some());
    broadcast.forget_keyframes();
    assert!(broadcast.greeting("a").is_none());
    let counts = broadcast.metrics().snapshot();
    assert_eq!(counts.instances[0].produced_frames, 3);
    assert_eq!(counts.instances[0].keyframes, 2);
    assert_eq!(counts.instances[0].deltas, 1);
    assert_eq!(counts.instances[0].instance_delivered, 1);
    assert_eq!(counts.instances[0].instance_dropped, 1);
}

#[test]
fn a_dashboard_keeps_its_instances_apart() {
    let mut broadcast = DashboardBroadcast::with_config(BroadcastConfig::default());
    let mut viewer = DashboardViewer::new();
    let frame = blank(4, 4);
    let first = viewer.produce(&mut broadcast, "a", &frame, 0).unwrap();
    assert_eq!(first.frame_type, StreamFrameType::Keyframe);
    viewer.delivered(&mut broadcast, "a", frame.copy());
    let other = viewer.produce(&mut broadcast, "b", &frame, 1).unwrap();
    assert_eq!(other.frame_type, StreamFrameType::Keyframe);
    viewer.delivered(&mut broadcast, "b", frame.copy());
    let next = viewer.produce(&mut broadcast, "a", &frame, 0).unwrap();
    assert_eq!(next.frame_type, StreamFrameType::Delta);
    viewer.dropped(&mut broadcast, "a", next.frame_type);
    let next = viewer.produce(&mut broadcast, "b", &frame, 1).unwrap();
    assert_eq!(next.frame_type, StreamFrameType::Delta);
    let next = viewer.produce(&mut broadcast, "a", &frame, 0).unwrap();
    assert_eq!(next.frame_type, StreamFrameType::Keyframe);
    viewer.request_keyframe("b");
    let next = viewer.produce(&mut broadcast, "b", &frame, 1).unwrap();
    assert_eq!(next.frame_type, StreamFrameType::Keyframe);
    let counts = broadcast.metrics().snapshot();
    assert_eq!(counts.total_dashboard_delivered, 2);
    assert_eq!(counts.total_dashboard_dropped, 1);
}

#[test]
fn a_dashboard_counts_each_frame_once() {
    let config = BroadcastConfig {
        backpressure_limit: 80,
        keyframe_interval: 5,
        ..BroadcastConfig::default()
    };
    let mut broadcast = DashboardBroadcast::with_config(config);
    let mut viewer = DashboardViewer::new();
    let mut first = [true; 2];
    let (mut sent, mut dropped) = ([0u64; 2], [0u64; 2]);
    for step in 0..40usize {
        let at = step % 3 / 2;
        let id = ["a", "b"][at];
        let mut frame = blank(4, 4);
        if step % 7 < 3 {
            for (i, byte) in frame.data.iter_mut().enumerate() {
                *byte = ((i + step) * 89 % 251) as u8;
            }
        }
        let out = viewer.produce(&mut broadcast, id, &frame, at as u8 + 8).unwrap();
        assert_eq!(out.bytes[6], at as u8 + 8);
        assert_eq!(out.fits, out.bytes.len() <= 80);
        if first[at] {
            assert_eq!(out.frame_type, StreamFrameType::Keyframe);
            first[at] = false;
        }
        if out.fits {
            viewer.delivered(&mut broadcast, id, frame);
            sent[at] += 1;
        } else {
            viewer.dropped(&mut broadcast, id, out.frame_type);
            dropped[at] += 1;
        }
    }
    assert!(sent[0] > 0 && sent[1] > 0 && dropped[0] > 0 && dropped[1] > 0);
    let counts = broadcast.metrics().snapshot();
    for at in 0..2 {
        let m = &counts.instances[at];
        assert_eq!(m.produced_frames, sent[at] + dropped[at]);
        assert_eq!(m.dashboard_delivered, sent[at]);
        assert_eq!(m.dashboard_dropped, dropped[at]);
        assert_eq!((m.instance_delivered, m.instance_dropped), (0, 0));
    }
}

#[test]
fn broadcast_config_defaults() {
    let config = BroadcastConfig::default();
    assert_eq!(config.keyframe_interval, 60);
    assert_eq!(config.backpressure_limit, 262_144);
    assert_eq!(config.tile_size, 16);
    assert!(!config.h264_enabled, "h264 must be disabled by default");
}

#[test]
fn broadcast_config_h264_opt_in() {
    let config = BroadcastConfig {
        h264_enabled: true,
        ..Default::default()
    };
    assert!(config.h264_enabled);
    assert_eq!(config.keyframe_interval, 60);
    assert_eq!(DashboardBroadcast::with_config(config).config(), config);
}

#[test]
fn broadcast_uses_injected_metrics_handle() {
    let mut metrics = StreamMetrics::new();
    metrics.record_delivery("inst-1", true, false);
    let broadcast =
        DashboardBroadcast::with_config_and_metrics(BroadcastConfig::default(), metrics);
    let snapshot = broadcast.metrics().snapshot();
    assert_eq!(snapshot.instances[0].instance_delivered, 1);
}

#[test]
fn requests_for_whole_pictures_are_spaced_out() {
    let mut throttle = KeyframeThrottle::new();
    let ask = br#"{"type":"keyframe"}"#;
    assert!(!throttle.on_message(b"not json", 0));
    assert!(!throttle.on_message(br#"{"type":"client-metrics"}"#, 0));
    assert!(throttle.on_message(ask, 1000));
    assert!(!throttle.on_message(ask, 1000 + KEYFRAME_THROTTLE_MS - 1));
    assert!(throttle.on_message(ask, 1000 + KEYFRAME_THROTTLE_MS));
    assert!(!throttle.on_control(&ViewerControl::Keyframe, 0));
    let report = ClientMetrics {
        decoded_frames: None,
        dropped_frames: None,
        fps: None,
        keyframe_recoveries: None,
        reconnects: None,
        rendered_frames: None,
        sequence_gaps: None,
    };
    assert!(!throttle.on_control(&ViewerControl::ClientMetrics(report), 9000));
    assert!(throttle.on_control(&ViewerControl::Keyframe, 9000));
}

#[test]
fn push_and_subscribe() {
    let mut hub = FrameHub::new();
    hub.register_instance("test-1");
    hub.push_frame("test-1", blank(240, 160), 1);
    let received = hub.latest_frame("test-1").unwrap();
    assert_eq!(received.width, 240);
    assert_eq!(received.height, 160);
    assert_eq!(received.sequence, 1);
    hub.push_frame("test-1", blank(240, 160), 2);
    assert_eq!(hub.latest_frame("test-1").unwrap().sequence, 2);
    assert_eq!(hub.latest_frame("test-1").unwrap().timestamp_ms, 2);
}

#[test]
fn latest_frame_returns_current() {
    let mut hub = FrameHub::default();
    hub.register_instance("test-2");
    assert!(hub.latest_frame("test-2").is_none());
    hub.push_frame("test-2", blank(240, 160), 1);
    assert_eq!(hub.latest_frame("test-2").unwrap().width, 240);
}

#[test]
fn backpressure_drops_old_frames() {
    let mut hub = FrameHub::new();
    hub.register_instance("test-3");
    for i in 0..100 {
        hub.push_frame("test-3", blank(240, 160), i);
    }
    assert_eq!(hub.latest_frame("test-3").unwrap().sequence, 100);
}

#[test]
fn unregister_removes_instance() {
    let mut hub = FrameHub::new();
    hub.register_instance("test-4");
    hub.push_frame("test-4", blank(2, 2), 1);
    hub.unregister_instance("test-4");
    assert!(hub.latest_frame("test-4").is_none());
    hub.push_frame("test-4", blank(2, 2), 1);
    assert!(hub.latest_frame("test-4").is_none());
    hub.register_instance("test-4");
    hub.push_frame("test-4", blank(2, 2), 1);
    assert_eq!(hub.latest_frame("test-4").unwrap().sequence, 1);
}

#[test]
fn pictures_are_numbered_per_instance() {
    let mut hub = FrameHub::new();
    hub.register_instance("a");
    hub.register_instance("b");
    for n in 1..=9u64 {
        hub.push_frame("a", blank(2, 2), n);
        if n % 3 == 0 {
            hub.push_frame("b", blank(2, 2), n);
            assert_eq!(hub.latest_frame("b").unwrap().sequence, n / 3);
        }
        assert_eq!(hub.latest_frame("a").unwrap().sequence, n);
    }
    hub.unregister_instance("b");
    assert_eq!(hub.latest_frame("a").unwrap().sequence, 9);
}

#[test]
fn registered_instances_returns_sorted_ids() {
    let mut hub = FrameHub::new();
    hub.register_instance("z");
    hub.register_instance("a");
    assert_eq!(hub.registered_instances(), vec!["a", "z"]);
    for id in ["é", "zz", "", "Z", "\u{ffff}", "\u{10000}", "a"] {
        hub.register_instance(id);
    }
    let mut ids: Vec<String> =
        ["a", "z", "é", "zz", "", "Z", "\u{ffff}", "\u{10000}"].map(String::from).to_vec();
    ids.sort();
    assert_eq!(hub.registered_instances(), ids);
}

#[test]
fn input_event_lifecycle() {
    let mut bus = InputLogBus::new();
    let event_id = bus.begin_input("session-1", "tap", Some("A"));
    bus.complete_input(&event_id, 15);
    let recent = bus.recent("session-1");
    assert_eq!(recent.len(), 1);
    assert_eq!(recent[0].status, InputEventStatus::Completed);
    assert_eq!(recent[0].latency_ms, Some(15));
    assert_eq!(recent[0].button, Some("A".to_string()));
    assert_eq!(recent[0].event_id, event_id);
    assert_eq!(recent[0].session_id, "session-1");
}

#[test]
fn recent_capped_at_100() {
    let mut bus = InputLogBus::new();
    for i in 0..150 {
        let id = bus.begin_input("session-2", "tap", Some("A"));
        bus.complete_input(&id, i);
    }
    let recent = bus.recent("session-2");
    assert_eq!(recent.len(), 100);
    assert_eq!(recent.first().unwrap().latency_ms, Some(50));
    assert_eq!(recent.last().unwrap().latency_ms, Some(149));
}

#[test]
fn subscribe_receives_live_events() {
    let mut bus = InputLogBus::default();
    let event_id = bus.begin_input("session-3", "tap", Some("B"));
    let event = bus.complete_input(&event_id, 5).unwrap();
    assert_eq!(event.status, InputEventStatus::Completed);
    assert!(bus.complete_input(&event_id, 5).is_none());
}

#[test]
fn fail_input_marks_failed() {
    let mut bus = InputLogBus::new();
    let event_id = bus.begin_input("session-4", "tap", Some("A"));
    bus.fail_input(&event_id);
    let recent = bus.recent("session-4");
    assert_eq!(recent.len(), 1);
    assert_eq!(recent[0].status, InputEventStatus::Failed);
    assert_eq!(recent[0].latency_ms, None);
}

#[test]
fn ended_inputs_keep_what_they_started_with() {
    let mut bus = InputLogBus::new();
    let (start, end) = (Timestamp { secs: 5, nanos: 1 }, Timestamp { secs: 6, nanos: 2 });
    bus.begin_input_at("e".to_string(), "s2", "hold", None, start);
    bus.begin_input_at("e".to_string(), "s1", "tap", Some("B"), start);
    assert!(bus.finalize_input_at("f", InputEventStatus::Failed, None, end).is_none());
    let event = bus
        .finalize_input_at("e", InputEventStatus::Completed, Some(-3), end)
        .unwrap();
    assert_eq!(event.session_id, "s1");
    assert_eq!(event.action, "tap");
    assert_eq!(event.started_at, start);
    assert_eq!(event.completed_at, Some(end));
    assert_eq!(event.latency_ms, Some(-3));
    assert!(bus.recent("s2").is_empty());
    let event = bus.finalize_input_at("e", InputEventStatus::Failed, None, end).unwrap();
    assert_eq!(event.session_id, "s2");
    assert_eq!(event.button, None);
}

#[test]
fn metrics_accumulate_correctly() {
    let mut metrics = StreamMetrics::new();
    for i in 0..10 {
        metrics.record_produced("i1", 1000, i == 0);
    }
    for _ in 0..8 {
        metrics.record_delivery("i1", true, true);
    }
    for _ in 0..2 {
        metrics.record_delivery("i1", false, true);
    }
    let snap = metrics.snapshot();
    assert_eq!(snap.instances.len(), 1);
    let m = &snap.instances[0];
    assert_eq!(m.produced_frames, 10);
    assert_eq!(m.produced_bytes, 10_000);
    assert_eq!(m.dashboard_delivered, 8);
    assert_eq!(m.dashboard_dropped, 2);
    assert_eq!(m.keyframes, 1);
    assert_eq!(m.deltas, 9);
    assert_eq!(snap.total_produced_frames, 10);
    assert_eq!(snap.total_produced_bytes, 10_000);
    assert_eq!(snap.total_dashboard_delivered, 8);
    assert_eq!(snap.total_dashboard_dropped, 2);
}

#[test]
fn counters_are_the_sums_of_what_was_recorded() {
    let mut metrics = StreamMetrics::new();
    for i in 0..30u64 {
        metrics.record_produced(["i2", "i1"][(i % 2) as usize], i, i % 5 == 0);
    }
    metrics.record_sequence_gap("i1");
    let snap = metrics.snapshot();
    assert_eq!(snap.instances.len(), 2);
    let (one, two) = (&snap.instances[0], &snap.instances[1]);
    assert_eq!((one.produced_frames, two.produced_frames), (15, 15));
    assert_eq!((one.keyframes, one.deltas), (3, 12));
    assert_eq!((two.keyframes, two.deltas), (3, 12));
    assert_eq!((one.produced_bytes, two.produced_bytes), (225, 210));
    assert_eq!(one.sequence_gaps, 1);
    let again = metrics.snapshot();
    assert_eq!(again.instances.len(), 2);
    for (a, b) in snap.instances.iter().zip(&again.instances) {
        assert_eq!(format!("{a:?}"), format!("{b:?}"));
    }
    assert_eq!(again.total_produced_bytes, 435);
}

#[test]
fn snapshot_sorted_by_instance_id() {
    let mut metrics = StreamMetrics::new();
    metrics.record_produced("z-instance", 100, true);
    metrics.record_produced("a-instance", 100, true);
    let snap = metrics.snapshot();
    assert_eq!(snap.instances.len(), 2);
    assert_eq!(snap.instances[0].instance_id, "a-instance");
    assert_eq!(snap.instances[1].instance_id, "z-instance");
}

#[test]
fn instance_delivery_counts_split_from_dashboard() {
    let mut metrics = StreamMetrics::default();
    metrics.record_delivery("i1", true, false);
    metrics.record_delivery("i1", true, false);
    metrics.record_delivery("i1", false, false);
    metrics.record_delivery("i1", true, true);
    let snap = metrics.snapshot();
    let m = &snap.instances[0];
    assert_eq!(m.instance_delivered, 2);
    assert_eq!(m.instance_dropped, 1);
    assert_eq!(m.dashboard_delivered, 1);
    assert_eq!(m.dashboard_dropped, 0);
}

#[test]
fn sequence_gaps_accumulate() {
    let mut metrics = StreamMetrics::new();
    metrics.record_sequence_gap("i1");
    metrics.record_sequence_gap("i1");
    metrics.record_sequence_gap("i1");
    let snap = metrics.snapshot();
    assert_eq!(snap.instances[0].sequence_gaps, 3);
}

#[test]
fn compression_ratio_tracks_bytes_per_frame() {
    let mut metrics = StreamMetrics::new();
    metrics.record_produced("i1", 1000, true);
    metrics.record_produced("i1", 3000, false);
    let snap = metrics.snapshot();
    let m = &snap.instances[0];
    assert_eq!(m.produced_bytes as f64 / m.produced_frames as f64, 2000.0);
}

#[test]
fn empty_snapshot_has_zero_totals() {
    let metrics = StreamMetrics::new();
    let snap = metrics.snapshot();
    assert_eq!(snap.instances.len(), 0);
    assert_eq!(snap.total_produced_frames, 0);
    assert_eq!(snap.total_produced_bytes, 0);
    assert_eq!(snap.total_dashboard_delivered, 0);
    assert_eq!(snap.total_dashboard_dropped, 0);
}
