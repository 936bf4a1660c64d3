//! What viewers are sent: whole pictures, differences, and how dropped frames are made up for.
use crate::streaming::control::{
    JsonView, ViewerControl, json_at, parse_viewer_control_message, text_at,
};
use crate::streaming::delta::{Grid, delta_records, rect_fits};
use crate::streaming::frame_hub::RawFrame;
use crate::streaming::metrics::{Counts, StreamMetrics};
use crate::streaming::picture::{
    law_pixels_are_shown_where_they_are, law_rectangle_fits_up_to_its_last_pixel, rect_in_bounds,
    rect_rgba,
};
use crate::streaming::protocol::{
    EncodeParams, StreamFrameType, VIEWER_CONTROL_MAX_BYTES, decoded_frame, deflate_raw, deflated,
    encode_keyframe, encode_stream_frame, flags, header_bytes, law_frame_fields, lemma_header_tags,
};
use crate::streaming::viewer::{
    apply_delta, law_delta_reconstructs_picture, law_whole_pictures_can_be_compared,
};
use crate::string_map::StringMap;
use crate::wire::{be16_at, low16, low32};
use vstd::arithmetic::div_mod::{
    lemma_fundamental_div_mod, lemma_fundamental_div_mod_converse, lemma_mod_multiples_vanish,
};
use vstd::prelude::*;

verus! {

/// Every so many frames a whole picture is sent.
pub const KEYFRAME_INTERVAL: u32 = 60;

/// Longer frames are dropped.
pub const BACKPRESSURE_LIMIT: usize = 262_144;

/// How long a viewer's request for a whole picture keeps later ones off, in milliseconds.
pub const KEYFRAME_THROTTLE_MS: u64 = 500;

/// How pictures are sent.
#[derive(Debug, Clone, Copy, PartialEq, Eq, Structural)]
pub struct BroadcastConfig {
    pub keyframe_interval: u32,
    pub backpressure_limit: usize,
    pub tile_size: u16,
    pub h264_enabled: bool,
}

impl BroadcastConfig {
    /// Neither the interval nor the edge of a tile is zero.
    pub open spec fn wf(self) -> bool {
        self.keyframe_interval > 0 && self.tile_size > 0
    }
}

impl Default for BroadcastConfig {
    fn default() -> (config: Self)
        ensures
            config == (BroadcastConfig {
                keyframe_interval: 60,
                backpressure_limit: 262_144,
                tile_size: 16,
                h264_enabled: false,
            }),
    {
        BroadcastConfig {
            keyframe_interval: KEYFRAME_INTERVAL,
            backpressure_limit: BACKPRESSURE_LIMIT,
            tile_size: 16,
            h264_enabled: false,
        }
    }
}

/// The tiles of a picture.
pub open spec fn frame_grid(frame: &RawFrame, tile_size: u16) -> Grid {
    Grid::of(frame.width, frame.height, frame.pitch, tile_size as u32)
}

/// The whole picture as RGBA bytes.
pub open spec fn frame_rgba(frame: &RawFrame) -> Seq<u8> {
    rect_rgba(frame.data@, 0, 0, frame.width as int, frame.height as int, frame.pitch as int)
}

/// Whether the buffers hold every pixel that a frame needs, and its size can be written down.
pub open spec fn encodable(
    frame: &RawFrame,
    prev: Option<RawFrame>,
    force_keyframe: bool,
    tile_size: u16,
) -> bool {
    &&& frame.width * frame.height * 4 <= u32::MAX
    &&& if force_keyframe || prev is None {
        rect_in_bounds(
            frame.data@.len(),
            0,
            0,
            frame.width as int,
            frame.height as int,
            frame.pitch as int,
        )
    } else {
        frame_grid(frame, tile_size).readable(prev->0.data@, frame.data@)
    }
}

/// Whether a whole picture or a difference is sent.
pub open spec fn payload_type(prev: Option<RawFrame>, force_keyframe: bool) -> StreamFrameType {
    if force_keyframe || prev is None {
        StreamFrameType::Keyframe
    } else {
        StreamFrameType::Delta
    }
}

/// The payload before compression.
pub open spec fn raw_payload(
    frame: &RawFrame,
    prev: Option<RawFrame>,
    force_keyframe: bool,
    tile_size: u16,
) -> Seq<u8> {
    if force_keyframe || prev is None {
        frame_rgba(frame)
    } else {
        frame_grid(frame, tile_size).delta(prev->0.data@, frame.data@)
    }
}

/// A frame on the wire. Numbers that are too long for their fields stand there by their low bits.
pub open spec fn raw_frame_bytes(
    frame: &RawFrame,
    frame_type: StreamFrameType,
    payload: Seq<u8>,
    instance_index: u8,
    tile_size: u16,
) -> Seq<u8> {
    header_bytes(
        frame_type,
        instance_index,
        flags::DEFLATE_RAW,
        (frame.sequence % 0x1_0000_0000) as u32,
        (frame.timestamp_ms % 0x1_0000_0000) as u32,
        (frame.width % 0x1_0000) as u16,
        (frame.height % 0x1_0000) as u16,
        tile_size,
        (frame.width * frame.height * 4) as u32,
        payload.len(),
        0,
    ) + payload
}

/// The payload of a frame: the whole picture where it is forced or nothing came before, else the
/// tiles that differ. There is none where a buffer is too short for the picture.
pub fn encode_frame_payload(
    frame: &RawFrame,
    prev_frame: Option<&RawFrame>,
    force_keyframe: bool,
    tile_size: u16,
) -> (res: Option<(StreamFrameType, Vec<u8>)>)
    requires
        tile_size > 0,
    ensures
        ({
            let prev = match prev_frame {
                Some(prev) => Some(*prev),
                None => None,
            };
            &&& res is Some <==> encodable(frame, prev, force_keyframe, tile_size)
            &&& res matches Some(made) ==> made.0 == payload_type(prev, force_keyframe) && made.1@
                == deflated(raw_payload(frame, prev, force_keyframe, tile_size))
        }),
{
    assert(0 <= frame.width * frame.height <= 0xffff_ffff * 0xffff_ffff) by (nonlinear_arith)
        requires
            0 <= frame.width <= 0xffff_ffff,
            0 <= frame.height <= 0xffff_ffff,
    ;
    let raw_bytes: u128 = frame.width as u128 * frame.height as u128 * 4;
    if raw_bytes > 0xffff_ffff {
        return None;
    }
    match prev_frame {
        Some(prev) if !force_keyframe => {
            match delta_records(
                &prev.data,
                &frame.data,
                frame.width,
                frame.height,
                frame.pitch,
                tile_size as u32,
            ) {
                Some(raw) => Some((StreamFrameType::Delta, deflate_raw(&raw))),
                None => None,
            }
        },
        _ => {
            if !rect_fits(&frame.data, 0, 0, frame.width, frame.height, frame.pitch) {
                return None;
            }
            let payload = encode_keyframe(&frame.data, frame.width, frame.height, frame.pitch);
            Some((StreamFrameType::Keyframe, payload))
        },
    }
}

/// A frame with the given payload.
pub fn encode_raw_frame(
    frame: &RawFrame,
    frame_type: StreamFrameType,
    payload: Vec<u8>,
    instance_index: u8,
    tile_size: u16,
) -> (bytes: Vec<u8>)
    requires
        frame.width * frame.height * 4 <= u32::MAX,
    ensures
        bytes@ == raw_frame_bytes(frame, frame_type, payload@, instance_index, tile_size),
{
    assert(frame.width * frame.height <= u32::MAX);
    let ghost content = payload@;
    let bytes = encode_stream_frame(
        EncodeParams {
            frame_type,
            instance_index,
            sequence: low32(frame.sequence),
            timestamp_ms: low32(frame.timestamp_ms),
            width: low16(frame.width),
            height: low16(frame.height),
            tile_size,
            raw_bytes: frame.width * frame.height * 4,
            metadata: Vec::new(),
            payload,
        },
    );
    assert(bytes@ =~= raw_frame_bytes(frame, frame_type, content, instance_index, tile_size));
    bytes
}

/// A frame that is ready to be sent.
#[derive(Debug)]
pub struct Outgoing {
    pub frame_type: StreamFrameType,
    pub bytes: Vec<u8>,
    /// Whether the frame is short enough to be sent. Otherwise it is dropped.
    pub fits: bool,
}

/// What is known of a viewer of one instance.
#[derive(Debug)]
pub struct StreamState {
    /// The last picture that was sent.
    pub prev_frame: Option<RawFrame>,
    /// How many frames were made; the count wraps around.
    pub frame_count: u32,
    /// Whether the next frame is to be a whole picture.
    pub recovery_mode: bool,
}

impl StreamState {
    /// The count after one more frame.
    pub open spec fn next_count(self) -> u32 {
        ((self.frame_count + 1) % 0x1_0000_0000) as u32
    }

    /// Whether the next frame is a whole picture whatever came before: the first frame of each
    /// interval is, and one that makes up for what was dropped.
    pub open spec fn forces_keyframe(self, config: BroadcastConfig) -> bool {
        self.next_count() as int % config.keyframe_interval as int == 1int
            % config.keyframe_interval as int || self.recovery_mode
    }

    /// Whether `out` is the frame that shows `frame` to this viewer.
    pub open spec fn makes(
        self,
        frame: &RawFrame,
        instance_index: u8,
        config: BroadcastConfig,
        out: Outgoing,
    ) -> bool {
        let force = self.forces_keyframe(config);
        &&& out.frame_type == payload_type(self.prev_frame, force)
        &&& out.bytes@ == raw_frame_bytes(
            frame,
            out.frame_type,
            deflated(raw_payload(frame, self.prev_frame, force, config.tile_size)),
            instance_index,
            config.tile_size,
        )
        &&& out.fits == (out.bytes@.len() <= config.backpressure_limit)
    }

    /// A viewer that was sent nothing yet.
    pub fn new() -> (state: Self)
        ensures
            state == (StreamState { prev_frame: None, frame_count: 0, recovery_mode: false }),
    {
        StreamState { prev_frame: None, frame_count: 0, recovery_mode: false }
    }

    /// Makes the frame that shows a picture to the viewer. There is none where a buffer is too short
    /// for the picture.
    pub fn next_frame(&mut self, frame: &RawFrame, instance_index: u8, config: &BroadcastConfig) -> (
    out: Option<Outgoing>)
        requires
            config.wf(),
        ensures
            final(self).frame_count == old(self).next_count(),
            final(self).prev_frame == old(self).prev_frame,
            out is Some <==> encodable(
                frame,
                old(self).prev_frame,
                old(self).forces_keyframe(*config),
                config.tile_size,
            ),
            match out {
                Some(o) => old(self).makes(frame, instance_index, *config, o)
                    && final(self).recovery_mode == (old(self).recovery_mode && o.frame_type
                    != StreamFrameType::Keyframe),
                None => final(self).recovery_mode == old(self).recovery_mode,
            },
    {
        self.frame_count = self.frame_count.wrapping_add(1);
        let first: u32 = 1 % config.keyframe_interval;
        let force_keyframe = self.frame_count % config.keyframe_interval == first
            || self.recovery_mode;
        let made = encode_frame_payload(
            frame,
            self.prev_frame.as_ref(),
            force_keyframe,
            config.tile_size,
        );
        let (frame_type, payload) = match made {
            Some(made) => made,
            None => {
                return None;
            },
        };
        let bytes = encode_raw_frame(frame, frame_type, payload, instance_index, config.tile_size);
        if frame_type == StreamFrameType::Keyframe {
            self.recovery_mode = false;
        }
        let fits = bytes.len() <= config.backpressure_limit;
        Some(Outgoing { frame_type, bytes, fits })
    }

    /// The frame of a picture was sent: later differences are against that picture.
    pub fn delivered(&mut self, frame: RawFrame)
        ensures
            *final(self) == (StreamState { prev_frame: Some(frame), ..*old(self) }),
    {
        self.prev_frame = Some(frame);
    }

    /// A frame was dropped. Where it was a difference, a whole picture follows.
    pub fn dropped(&mut self, frame_type: StreamFrameType)
        ensures
            *final(self) == (StreamState {
                recovery_mode: old(self).recovery_mode || frame_type == StreamFrameType::Delta,
                ..*old(self)
            }),
    {
        if frame_type == StreamFrameType::Delta {
            self.recovery_mode = true;
        }
    }

    /// The viewer asked for a whole picture: the next frame is one.
    pub fn request_keyframe(&mut self)
        ensures
            *final(self) == (StreamState { recovery_mode: true, ..*old(self) }),
    {
        self.recovery_mode = true;
    }
}

/// Keeps a viewer from asking for whole pictures too often.
#[derive(Debug, Clone, Copy, PartialEq, Eq, Structural)]
pub struct KeyframeThrottle {
    /// When the last request was granted, in milliseconds.
    pub last_request: Option<u64>,
}

/// Whether a text is a control message that asks for a whole picture.
pub open spec fn asks_for_keyframe(text: Seq<u8>) -> bool {
    &&& text.len() <= VIEWER_CONTROL_MAX_BYTES
    &&& json_at(text, ""@) == Ok::<Option<JsonView>, Seq<char>>(Some(JsonView::Object))
    &&& text_at(text, "/type"@) == Some("keyframe"@)
}

impl KeyframeThrottle {
    /// Whether a request is granted.
    pub open spec fn grants(self, now_ms: u64) -> bool {
        match self.last_request {
            Some(last) => now_ms - last >= KEYFRAME_THROTTLE_MS,
            None => true,
        }
    }

    /// No request yet.
    pub fn new() -> (throttle: Self)
        ensures
            throttle.last_request is None,
    {
        KeyframeThrottle { last_request: None }
    }

    /// Whether a control message asks for a whole picture and is granted.
    pub fn on_control(&mut self, control: &ViewerControl, now_ms: u64) -> (granted: bool)
        ensures
            granted == (*control == ViewerControl::Keyframe && old(self).grants(now_ms)),
            final(self).last_request == if granted {
                Some(now_ms)
            } else {
                old(self).last_request
            },
    {
        match control {
            ViewerControl::Keyframe => {
                let granted = match self.last_request {
                    Some(last) => now_ms >= last && now_ms - last >= KEYFRAME_THROTTLE_MS,
                    None => true,
                };
                if granted {
                    self.last_request = Some(now_ms);
                }
                granted
            },
            ViewerControl::ClientMetrics(_) => false,
        }
    }

    /// Whether a message from a viewer asks for a whole picture and is granted. A message that
    /// cannot be read is passed over.
    pub fn on_message(&mut self, bytes: &[u8], now_ms: u64) -> (granted: bool)
        ensures
            granted == (asks_for_keyframe(bytes@) && old(self).grants(now_ms)),
            final(self).last_request == if granted {
                Some(now_ms)
            } else {
                old(self).last_request
            },
    {
        let parsed = parse_viewer_control_message(bytes);
        proof {
            reveal_strlit("keyframe");
            reveal_strlit("client-metrics");
        }
        match parsed {
            Ok(control) => self.on_control(&control, now_ms),
            Err(_) => false,
        }
    }
}

/// What all viewers share: the last whole picture of each instance, as it was sent, and counters.
#[derive(Debug)]
pub struct DashboardBroadcast {
    keyframe_cache: StringMap<Vec<u8>>,
    metrics: StreamMetrics,
    config: BroadcastConfig,
}

impl DashboardBroadcast {
    pub closed spec fn wf(&self) -> bool {
        self.keyframe_cache.wf() && self.metrics.wf() && self.config.wf()
    }

    /// The whole picture of an instance that newcomers are sent.
    pub closed spec fn cached(&self, id: Seq<char>) -> Option<Seq<u8>> {
        if self.keyframe_cache@.dom().contains(id) {
            Some(self.keyframe_cache@[id]@)
        } else {
            None
        }
    }

    /// The counters.
    pub closed spec fn counters(&self) -> StreamMetrics {
        self.metrics
    }

    /// How pictures are sent.
    pub closed spec fn settings(&self) -> BroadcastConfig {
        self.config
    }

    /// Whether the whole pictures are those of `before` but for one instance.
    pub open spec fn cached_but(
        &self,
        before: &DashboardBroadcast,
        id: Seq<char>,
        now: Option<Seq<u8>>,
    ) -> bool {
        &&& self.cached(id) == now
        &&& forall|other: Seq<char>|
            other != id ==> #[trigger] self.cached(other) == before.cached(other)
    }

    /// A broadcast with the usual settings.
    pub fn new() -> (broadcast: Self)
        ensures
            broadcast.wf(),
            forall|id: Seq<char>| #[trigger] broadcast.cached(id) is None,
            broadcast.settings() == (BroadcastConfig {
                keyframe_interval: 60,
                backpressure_limit: 262_144,
                tile_size: 16,
                h264_enabled: false,
            }),
            broadcast.counters().known() == Set::<Seq<char>>::empty(),
            forall|id: Seq<char>| #[trigger]
                broadcast.counters().counts(id) == Counts::zero(),
    {
        Self::with_config(BroadcastConfig::default())
    }

    /// A broadcast with given settings.
    pub fn with_config(config: BroadcastConfig) -> (broadcast: Self)
        requires
            config.wf(),
        ensures
            broadcast.wf(),
            forall|id: Seq<char>| #[trigger] broadcast.cached(id) is None,
            broadcast.settings() == config,
            broadcast.counters().known() == Set::<Seq<char>>::empty(),
            forall|id: Seq<char>| #[trigger]
                broadcast.counters().counts(id) == Counts::zero(),
    {
        Self::with_config_and_metrics(config, StreamMetrics::new())
    }

    /// A broadcast with given settings that goes on counting.
    pub fn with_config_and_metrics(config: BroadcastConfig, metrics: StreamMetrics) -> (broadcast:
        Self)
        requires
            config.wf(),
            metrics.wf(),
        ensures
            broadcast.wf(),
            forall|id: Seq<char>| #[trigger] broadcast.cached(id) is None,
            broadcast.settings() == config,
            broadcast.counters() == metrics,
    {
        DashboardBroadcast { keyframe_cache: StringMap::new(), metrics, config }
    }

    /// The counters.
    pub fn metrics(&self) -> (metrics: &StreamMetrics)
        requires
            self.wf(),
        ensures
            *metrics == self.counters(),
            metrics.wf(),
    {
        &self.metrics
    }

    /// The settings.
    pub fn config(&self) -> (config: BroadcastConfig)
        requires
            self.wf(),
        ensures
            config == self.settings(),
            config.wf(),
    {
        self.config
    }

    /// What a newcomer is sent before anything else: the last whole picture, if it is short enough.
    pub fn greeting(&self, instance_id: &str) -> (bytes: Option<&Vec<u8>>)
        requires
            self.wf(),
        ensures
            match bytes {
                Some(b) => self.cached(instance_id@) == Some(b@) && b@.len()
                    <= self.settings().backpressure_limit,
                None => match self.cached(instance_id@) {
                    Some(b) => b.len() > self.settings().backpressure_limit,
                    None => true,
                },
            },
    {
        match self.keyframe_cache.get(instance_id) {
            Some(bytes) => if bytes.len() <= self.config.backpressure_limit {
                Some(bytes)
            } else {
                None
            },
            None => None,
        }
    }

    /// Makes the frame that shows a picture to one viewer, keeps it for newcomers where it is a
    /// whole picture, and counts it.
    pub fn produce(
        &mut self,
        state: &mut StreamState,
        instance_id: &str,
        frame: &RawFrame,
        instance_index: u8,
    ) -> (out: Option<Outgoing>)
        requires
            old(self).wf(),
        ensures
            final(self).wf(),
            final(self).settings() == old(self).settings(),
            final(state).frame_count == old(state).next_count(),
            final(state).prev_frame == old(state).prev_frame,
            out is Some <==> encodable(
                frame,
                old(state).prev_frame,
                old(state).forces_keyframe(old(self).settings()),
                old(self).settings().tile_size,
            ),
            match out {
                Some(o) => {
                    &&& old(state).makes(frame, instance_index, old(self).settings(), o)
                    &&& final(state).recovery_mode == (old(state).recovery_mode && o.frame_type
                        != StreamFrameType::Keyframe)
                    &&& final(self).cached_but(
                        old(self),
                        instance_id@,
                        if o.frame_type == StreamFrameType::Keyframe {
                            Some(o.bytes@)
                        } else {
                            old(self).cached(instance_id@)
                        },
                    )
                    &&& final(self).counters().differs_in(
                        &old(self).counters(),
                        instance_id@,
                        old(self).counters().counts(instance_id@).produced(
                            o.bytes@.len() as u64,
                            o.frame_type == StreamFrameType::Keyframe,
                        ),
                    )
                },
                None => *final(self) == *old(self) && final(state).recovery_mode
                    == old(state).recovery_mode,
            },
    {
        match state.next_frame(frame, instance_index, &self.config) {
            Some(out) => {
                let is_keyframe = out.frame_type == StreamFrameType::Keyframe;
                if is_keyframe {
                    let _ = self.keyframe_cache.insert(instance_id, out.bytes.clone());
                }
                self.metrics.record_produced(instance_id, out.bytes.len() as u64, is_keyframe);
                Some(out)
            },
            None => None,
        }
    }

    /// Notes and counts that a frame was sent.
    pub fn delivered(
        &mut self,
        state: &mut StreamState,
        instance_id: &str,
        frame: RawFrame,
        is_dashboard: bool,
    )
        requires
            old(self).wf(),
        ensures
            final(self).wf(),
            final(self).settings() == old(self).settings(),
            forall|id: Seq<char>| #[trigger] final(self).cached(id) == old(self).cached(id),
            *final(state) == (StreamState { prev_frame: Some(frame), ..*old(state) }),
            final(self).counters().differs_in(
                &old(self).counters(),
                instance_id@,
                old(self).counters().counts(instance_id@).delivery(true, is_dashboard),
            ),
    {
        self.metrics.record_delivery(instance_id, true, is_dashboard);
        state.delivered(frame);
    }

    /// Notes and counts that a frame was dropped.
    pub fn dropped(
        &mut self,
        state: &mut StreamState,
        instance_id: &str,
        frame_type: StreamFrameType,
        is_dashboard: bool,
    )
        requires
            old(self).wf(),
        ensures
            final(self).wf(),
            final(self).settings() == old(self).settings(),
            forall|id: Seq<char>| #[trigger] final(self).cached(id) == old(self).cached(id),
            *final(state) == (StreamState {
                recovery_mode: old(state).recovery_mode || frame_type == StreamFrameType::Delta,
                ..*old(state)
            }),
            final(self).counters().differs_in(
                &old(self).counters(),
                instance_id@,
                old(self).counters().counts(instance_id@).delivery(false, is_dashboard),
            ),
    {
        self.metrics.record_delivery(instance_id, false, is_dashboard);
        state.dropped(frame_type);
    }

    /// Forgets the whole picture of one instance, so that newcomers wait for a new one.
    pub fn forget_keyframe(&mut self, instance_id: &str)
        requires
            old(self).wf(),
        ensures
            final(self).wf(),
            final(self).settings() == old(self).settings(),
            final(self).counters() == old(self).counters(),
            final(self).cached_but(old(self), instance_id@, None),
    {
        let _ = self.keyframe_cache.remove(instance_id);
    }

    /// Forgets all whole pictures.
    pub fn forget_keyframes(&mut self)
        requires
            old(self).wf(),
        ensures
            final(self).wf(),
            final(self).settings() == old(self).settings(),
            final(self).counters() == old(self).counters(),
            forall|id: Seq<char>| #[trigger] final(self).cached(id) is None,
    {
        self.keyframe_cache.clear();
    }
}

/// What a viewer shows after a frame, where `inflate` undoes the compression. A frame that carries
/// neither a whole picture nor a difference leaves the picture as it is.
pub open spec fn shown_after(
    picture: Seq<u8>,
    bytes: Seq<u8>,
    inflate: spec_fn(Seq<u8>) -> Seq<u8>,
) -> Seq<u8> {
    match decoded_frame(bytes) {
        Ok((_, payload)) => if bytes[5] == StreamFrameType::Keyframe.number() {
            inflate(payload)
        } else if bytes[5] == StreamFrameType::Delta.number() {
            apply_delta(picture, be16_at(bytes, 16), inflate(payload))
        } else {
            picture
        },
        Err(_) => picture,
    }
}

/// A viewer that is sent the frame of a picture shows that picture. Where the frame is a difference,
/// the viewer must show the picture before, which was of the same size, and the picture and the
/// number of its changed tiles must fit the fields of the wire.
#[verifier::rlimit(30)]
pub proof fn law_viewer_shows_what_was_sent(
    frame: &RawFrame,
    prev: Option<RawFrame>,
    force_keyframe: bool,
    tile_size: u16,
    instance_index: u8,
    picture: Seq<u8>,
    inflate: spec_fn(Seq<u8>) -> Seq<u8>,
)
    requires
        tile_size > 0,
        encodable(frame, prev, force_keyframe, tile_size),
        forall|data: Seq<u8>| inflate(#[trigger] deflated(data)) == data,
        deflated(raw_payload(frame, prev, force_keyframe, tile_size)).len() < 0x1_0000_0000,
        payload_type(prev, force_keyframe) == StreamFrameType::Delta ==> {
            let grid = frame_grid(frame, tile_size);
            let before = prev->0;
            &&& before.width == frame.width && before.height == frame.height && before.pitch
                == frame.pitch
            &&& picture == frame_rgba(&before)
            &&& frame.width < 0x1_0000 && frame.height < 0x1_0000
            &&& grid.changed_tiles(before.data@, frame.data@, grid.count()).len() < 0x1_0000
        },
    ensures
        shown_after(
            picture,
            raw_frame_bytes(
                frame,
                payload_type(prev, force_keyframe),
                deflated(raw_payload(frame, prev, force_keyframe, tile_size)),
                instance_index,
                tile_size,
            ),
            inflate,
        ) == frame_rgba(frame),
{
    let frame_type = payload_type(prev, force_keyframe);
    let raw = raw_payload(frame, prev, force_keyframe, tile_size);
    let payload = deflated(raw);
    let bytes = raw_frame_bytes(frame, frame_type, payload, instance_index, tile_size);
    law_frame_fields(
        frame_type,
        instance_index,
        flags::DEFLATE_RAW,
        (frame.sequence % 0x1_0000_0000) as u32,
        (frame.timestamp_ms % 0x1_0000_0000) as u32,
        (frame.width % 0x1_0000) as u16,
        (frame.height % 0x1_0000) as u16,
        tile_size,
        (frame.width * frame.height * 4) as u32,
        Seq::empty(),
        payload,
    );
    assert(bytes =~= header_bytes(
        frame_type,
        instance_index,
        flags::DEFLATE_RAW,
        (frame.sequence % 0x1_0000_0000) as u32,
        (frame.timestamp_ms % 0x1_0000_0000) as u32,
        (frame.width % 0x1_0000) as u16,
        (frame.height % 0x1_0000) as u16,
        tile_size,
        (frame.width * frame.height * 4) as u32,
        payload.len(),
        0,
    ) + Seq::empty() + payload);
    assert(inflate(payload) == raw);
    if frame_type == StreamFrameType::Delta {
        law_delta_reconstructs_picture(
            frame_grid(frame, tile_size),
            prev->0.data@,
            frame.data@,
        );
    }
}

/// Whether a viewer shows the last picture that it was sent.
pub open spec fn in_step(state: StreamState, picture: Seq<u8>) -> bool {
    state.prev_frame matches Some(prev) ==> picture == frame_rgba(&prev)
}

/// A viewer that shows the last picture that it was sent shows the next one, too, once that was
/// sent, and goes on showing the last one where it was dropped.
pub proof fn law_viewer_stays_in_step(
    state: StreamState,
    frame: RawFrame,
    config: BroadcastConfig,
    instance_index: u8,
    out: Outgoing,
    picture: Seq<u8>,
    inflate: spec_fn(Seq<u8>) -> Seq<u8>,
)
    requires
        config.wf(),
        in_step(state, picture),
        encodable(&frame, state.prev_frame, state.forces_keyframe(config), config.tile_size),
        state.makes(&frame, instance_index, config, out),
        forall|data: Seq<u8>| inflate(#[trigger] deflated(data)) == data,
        out.bytes@.len() < 0x1_0000_0000,
        out.frame_type == StreamFrameType::Delta ==> {
            let grid = frame_grid(&frame, config.tile_size);
            let before = state.prev_frame->0;
            &&& before.width == frame.width && before.height == frame.height && before.pitch
                == frame.pitch
            &&& frame.width < 0x1_0000 && frame.height < 0x1_0000
            &&& grid.changed_tiles(before.data@, frame.data@, grid.count()).len() < 0x1_0000
        },
    ensures
        in_step(
            StreamState { prev_frame: Some(frame), ..state },
            shown_after(picture, out.bytes@, inflate),
        ),
        in_step(StreamState { recovery_mode: true, ..state }, picture),
{
    let force = state.forces_keyframe(config);
    law_viewer_shows_what_was_sent(
        &frame,
        state.prev_frame,
        force,
        config.tile_size,
        instance_index,
        picture,
        inflate,
    );
}

/// After a difference was dropped, and after a viewer asked for it, the next frame is a whole
/// picture.
pub proof fn law_recovery_sends_whole_picture(state: StreamState, config: BroadcastConfig)
    requires
        state.recovery_mode,
    ensures
        payload_type(state.prev_frame, state.forces_keyframe(config)) == StreamFrameType::Keyframe,
{
}

/// The first frame that a viewer is sent is a whole picture.
pub proof fn law_first_frame_is_whole(state: StreamState, config: BroadcastConfig)
    requires
        state.prev_frame is None,
    ensures
        payload_type(state.prev_frame, state.forces_keyframe(config)) == StreamFrameType::Keyframe,
{
}

/// Among as many frames in a row as the interval says, one is a whole picture, as long as the count
/// does not wrap around.
pub proof fn law_keyframes_recur(state: StreamState, config: BroadcastConfig) -> (later: int)
    requires
        config.keyframe_interval > 0,
        state.frame_count + config.keyframe_interval <= u32::MAX,
    ensures
        0 <= later < config.keyframe_interval,
        (StreamState {
            frame_count: (state.frame_count + later) as u32,
            ..state
        }).forces_keyframe(config),
{
    let n = config.keyframe_interval as int;
    let c = state.frame_count as int;
    let q = c / n;
    lemma_fundamental_div_mod(c, n);
    if c % n == 0 {
        lemma_mod_multiples_vanish(q, 1, n);
        0
    } else {
        let later = n - c % n;
        assert(c + later + 1 == n * (q + 1) + 1) by (nonlinear_arith)
            requires
                c == n * q + c % n,
                later == n - c % n,
        ;
        lemma_mod_multiples_vanish(q + 1, 1, n);
        later
    }
}

/// The frame of a picture on the wire: it tells whether it carries a whole picture or a difference,
/// the instance, that it is compressed, the number and time of the picture by their low 32 bits, its
/// size by the low 16 bits, the edge of a tile and the size of the whole picture; the payload
/// follows.
pub proof fn law_picture_frame_on_the_wire(
    frame: &RawFrame,
    frame_type: StreamFrameType,
    payload: Seq<u8>,
    instance_index: u8,
    tile_size: u16,
)
    requires
        frame.width * frame.height * 4 <= u32::MAX,
        payload.len() < 0x1_0000_0000,
    ensures
        ({
            let bytes = raw_frame_bytes(frame, frame_type, payload, instance_index, tile_size);
            &&& bytes.len() == 34 + payload.len()
            &&& frame_type is Keyframe ==> bytes[5] == 1
            &&& frame_type is Delta ==> bytes[5] == 2
            &&& bytes[6] == instance_index
            &&& bytes[7] == 1
            &&& 16_777_216 * bytes[8] + 65_536 * bytes[9] + 256 * bytes[10] + bytes[11]
                == frame.sequence as int % 4_294_967_296
            &&& 16_777_216 * bytes[12] + 65_536 * bytes[13] + 256 * bytes[14] + bytes[15]
                == frame.timestamp_ms as int % 4_294_967_296
            &&& 256 * bytes[16] + bytes[17] == frame.width as int % 65_536
            &&& 256 * bytes[18] + bytes[19] == frame.height as int % 65_536
            &&& 256 * bytes[20] + bytes[21] == tile_size
            &&& 16_777_216 * bytes[22] + 65_536 * bytes[23] + 256 * bytes[24] + bytes[25]
                == frame.width * frame.height * 4
            &&& 16_777_216 * bytes[26] + 65_536 * bytes[27] + 256 * bytes[28] + bytes[29]
                == payload.len()
            &&& bytes[30] == 0 && bytes[31] == 0 && bytes[32] == 0 && bytes[33] == 0
            &&& forall|i: int|
                0 <= i < payload.len() ==> #[trigger] payload[i] == bytes[34 + i]
        }),
{
    assert(0 <= frame.width * frame.height) by (nonlinear_arith);
    law_frame_fields(
        frame_type,
        instance_index,
        flags::DEFLATE_RAW,
        (frame.sequence % 0x1_0000_0000) as u32,
        (frame.timestamp_ms % 0x1_0000_0000) as u32,
        (frame.width % 0x1_0000) as u16,
        (frame.height % 0x1_0000) as u16,
        tile_size,
        (frame.width * frame.height * 4) as u32,
        Seq::empty(),
        payload,
    );
    let header = header_bytes(
        frame_type,
        instance_index,
        flags::DEFLATE_RAW,
        (frame.sequence % 0x1_0000_0000) as u32,
        (frame.timestamp_ms % 0x1_0000_0000) as u32,
        (frame.width % 0x1_0000) as u16,
        (frame.height % 0x1_0000) as u16,
        tile_size,
        (frame.width * frame.height * 4) as u32,
        payload.len(),
        0,
    );
    assert(header + Seq::empty() + payload =~= header + payload);
    let bytes = header + payload;
    assert(header.len() == 34);
    assert forall|i: int| 0 <= i < payload.len() implies #[trigger] payload[i] == bytes[34 + i] by {
    }
}

/// A frame is a whole picture whatever came before if and only if it is the first of an interval, so
/// one in as many as the interval says, or makes up for what was dropped or asked for. Frames are
/// numbered from 0, until the count wraps around.
pub proof fn law_keyframes_come_at_the_interval(state: StreamState, config: BroadcastConfig)
    requires
        config.keyframe_interval > 0,
        state.frame_count < u32::MAX,
    ensures
        state.forces_keyframe(config) <==> state.recovery_mode || state.frame_count as int
            % (config.keyframe_interval as int) == 0,
        state.next_count() == state.frame_count + 1,
{
    let n = config.keyframe_interval as int;
    let c = state.frame_count as int;
    lemma_fundamental_div_mod(c, n);
    let (q, r) = (c / n, c % n);
    if n == 1 {
        assert(c % 1 == 0 && (c + 1) % 1 == 0);
    } else if r + 1 < n {
        assert(c + 1 == q * n + (r + 1)) by (nonlinear_arith)
            requires
                c == n * q + r,
        ;
        lemma_fundamental_div_mod_converse(c + 1, n, q, r + 1);
        lemma_fundamental_div_mod_converse(1, n, 0, 1);
    } else {
        assert(c + 1 == (q + 1) * n + 0) by (nonlinear_arith)
            requires
                c == n * q + r,
                r + 1 == n,
        ;
        lemma_fundamental_div_mod_converse(c + 1, n, q + 1, 0);
        lemma_fundamental_div_mod_converse(1, n, 0, 1);
    }
}

/// A frame is a difference if and only if it need not be a whole picture and something was sent
/// before.
pub proof fn law_differences_follow_pictures(state: StreamState, config: BroadcastConfig)
    ensures
        payload_type(state.prev_frame, state.forces_keyframe(config)) == StreamFrameType::Delta
            <==> state.prev_frame is Some && !state.forces_keyframe(config),
        payload_type(state.prev_frame, state.forces_keyframe(config)) != StreamFrameType::H264,
{
}

/// A picture whose buffer holds all its pixels can be sent, as a whole picture and as a difference
/// from another one of its kind, unless it is too large to be counted.
pub proof fn law_whole_pictures_can_be_sent(
    frame: &RawFrame,
    prev: Option<RawFrame>,
    force_keyframe: bool,
    tile_size: u16,
)
    requires
        tile_size > 0,
        frame.width > 0 && frame.height > 0 ==> (frame.height - 1) * frame.pitch + frame.width * 4
            <= frame.data@.len(),
        prev matches Some(p) ==> p.data@.len() == frame.data@.len(),
    ensures
        encodable(frame, prev, force_keyframe, tile_size) <==> frame.width * frame.height * 4
            <= 4_294_967_295,
{
    law_rectangle_fits_up_to_its_last_pixel(
        frame.data@.len(),
        0,
        0,
        frame.width as int,
        frame.height as int,
        frame.pitch as int,
    );
    if let Some(p) = prev {
        law_whole_pictures_can_be_compared(frame_grid(frame, tile_size), p.data@, frame.data@);
    }
}

/// A viewer shows every pixel of the picture that was sent where it is in that picture, in its
/// colour: byte `(y * width + x) * 4` of what it shows, and the two behind it, are the red, green and
/// blue of the pixel that starts at byte `y * pitch + x * 4` of the picture.
pub proof fn law_viewer_shows_every_pixel(
    state: StreamState,
    frame: RawFrame,
    config: BroadcastConfig,
    instance_index: u8,
    out: Outgoing,
    picture: Seq<u8>,
    inflate: spec_fn(Seq<u8>) -> Seq<u8>,
    x: int,
    y: int,
)
    requires
        config.wf(),
        in_step(state, picture),
        encodable(&frame, state.prev_frame, state.forces_keyframe(config), config.tile_size),
        state.makes(&frame, instance_index, config, out),
        forall|data: Seq<u8>| inflate(#[trigger] deflated(data)) == data,
        out.bytes@.len() < 0x1_0000_0000,
        out.frame_type == StreamFrameType::Delta ==> {
            let grid = frame_grid(&frame, config.tile_size);
            let before = state.prev_frame->0;
            &&& before.width == frame.width && before.height == frame.height && before.pitch
                == frame.pitch
            &&& frame.width < 0x1_0000 && frame.height < 0x1_0000
            &&& grid.changed_tiles(before.data@, frame.data@, grid.count()).len() < 0x1_0000
        },
        0 <= x < frame.width,
        0 <= y < frame.height,
    ensures
        ({
            let shown = shown_after(picture, out.bytes@, inflate);
            let at = (y * frame.width + x) * 4;
            let from = y * frame.pitch + x * 4;
            &&& shown.len() == frame.width * frame.height * 4
            &&& shown[at] == frame.data@[from + 2]
            &&& shown[at + 1] == frame.data@[from + 1]
            &&& shown[at + 2] == frame.data@[from]
            &&& shown[at + 3] == 255
        }),
{
    law_viewer_stays_in_step(state, frame, config, instance_index, out, picture, inflate);
    law_pixels_are_shown_where_they_are(
        frame.data@,
        0,
        0,
        frame.width as int,
        frame.height as int,
        frame.pitch as int,
        x,
        y,
    );
}

/// A request for a whole picture is granted if and only if none was granted in the 500 milliseconds
/// before; a clock that runs backwards grants none.
pub proof fn law_requests_are_spaced_out(throttle: KeyframeThrottle, now_ms: u64)
    ensures
        throttle.last_request is None ==> throttle.grants(now_ms),
        throttle.last_request matches Some(last) ==> (throttle.grants(now_ms) <==> last + 500
            <= now_ms),
{
}

/// The count of frames starts over after 4 294 967 295.
pub proof fn law_count_starts_over(state: StreamState, config: BroadcastConfig)
    requires
        config.keyframe_interval > 0,
        state.frame_count == 4_294_967_295,
    ensures
        state.next_count() == 0,
        state.forces_keyframe(config) <==> state.recovery_mode || config.keyframe_interval == 1,
{
    let n = config.keyframe_interval as int;
    if n > 1 {
        lemma_fundamental_div_mod_converse(1, n, 0, 1);
        lemma_fundamental_div_mod_converse(0, n, 0, 0);
    }
}

/// What goes out says of which instance and which picture it is, in tiles of which size, and is sent
/// just where it is no longer than the limit. Without a picture before it, and where a whole picture is
/// due, it is a whole picture, and the difference to the one before otherwise.
pub proof fn law_outgoing_on_the_wire(
    state: StreamState,
    frame: &RawFrame,
    instance_index: u8,
    config: BroadcastConfig,
    out: Outgoing,
)
    requires
        frame.width * frame.height * 4 <= u32::MAX,
        state.makes(frame, instance_index, config, out),
        out.bytes@.len() < 0x1_0000_0000,
    ensures
        ({
            let bytes = out.bytes@;
            let whole = state.prev_frame is None || state.forces_keyframe(config);
            &&& out.fits <==> bytes.len() <= config.backpressure_limit
            &&& out.frame_type == if whole {
                StreamFrameType::Keyframe
            } else {
                StreamFrameType::Delta
            }
            &&& bytes.len() >= 34
            &&& bytes[5] == if whole {
                1u8
            } else {
                2
            }
            &&& bytes[6] == instance_index
            &&& 16_777_216 * bytes[8] + 65_536 * bytes[9] + 256 * bytes[10] + bytes[11]
                == frame.sequence as int % 4_294_967_296
            &&& 16_777_216 * bytes[12] + 65_536 * bytes[13] + 256 * bytes[14] + bytes[15]
                == frame.timestamp_ms as int % 4_294_967_296
            &&& 256 * bytes[16] + bytes[17] == frame.width as int % 65_536
            &&& 256 * bytes[18] + bytes[19] == frame.height as int % 65_536
            &&& 256 * bytes[20] + bytes[21] == config.tile_size
        }),
{
    let force = state.forces_keyframe(config);
    let payload = deflated(raw_payload(frame, state.prev_frame, force, config.tile_size));
    lemma_header_tags(
        out.frame_type,
        instance_index,
        flags::DEFLATE_RAW,
        (frame.sequence % 0x1_0000_0000) as u32,
        (frame.timestamp_ms % 0x1_0000_0000) as u32,
        (frame.width % 0x1_0000) as u16,
        (frame.height % 0x1_0000) as u16,
        config.tile_size,
        (frame.width * frame.height * 4) as u32,
        payload.len(),
        0,
    );
    law_picture_frame_on_the_wire(frame, out.frame_type, payload, instance_index, config.tile_size);
}

/// The tiles of a frame are those of its size.
pub proof fn law_tiles_of_a_frame(frame: &RawFrame, tile_size: u16)
    ensures
        frame_grid(frame, tile_size).width == frame.width,
        frame_grid(frame, tile_size).height == frame.height,
        frame_grid(frame, tile_size).pitch == frame.pitch,
        frame_grid(frame, tile_size).tile == tile_size,
{
}

/// Just an object of type `keyframe` in at most 4096 bytes asks for a whole picture.
pub proof fn law_keyframes_are_asked_for(text: Seq<u8>)
    ensures
        asks_for_keyframe(text) <==> text.len() <= 4096 && json_at(text, ""@) == Ok::<
            Option<JsonView>,
            Seq<char>,
        >(Some(JsonView::Object)) && json_at(text, "/type"@) == Ok::<Option<JsonView>, Seq<char>>(
            Some(JsonView::Text("keyframe"@)),
        ),
{
}

} // verus!
