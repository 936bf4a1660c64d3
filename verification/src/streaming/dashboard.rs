//! Dashboards: viewers of many instances at once.
use crate::streaming::broadcast::{
    DashboardBroadcast, Outgoing, StreamState, encodable, law_whole_pictures_can_be_sent,
    raw_payload,
};
use crate::streaming::frame_hub::RawFrame;
use crate::streaming::metrics::{lemma_wrapped_sum, one_if, wrapped};
use crate::streaming::protocol::{
    STREAM_HEADER_SIZE, StreamFrameType, deflated, flags, lemma_header_tags,
};
use crate::string_map::StringMap;
use vstd::prelude::*;

verus! {

/// What is known of a viewer of many instances.
#[derive(Debug)]
pub struct DashboardViewer {
    states: StringMap<StreamState>,
}

impl DashboardViewer {
    pub closed spec fn wf(&self) -> bool {
        self.states.wf()
    }

    /// What is known of the viewer with regard to one instance.
    pub closed spec fn state(&self, id: Seq<char>) -> StreamState {
        if self.states@.dom().contains(id) {
            self.states@[id]
        } else {
            StreamState { prev_frame: None, frame_count: 0, recovery_mode: false }
        }
    }

    /// Whether nothing changed with regard to any other instance.
    pub open spec fn same_but(&self, before: &DashboardViewer, id: Seq<char>) -> bool {
        forall|other: Seq<char>| other != id ==> #[trigger] self.state(other) == before.state(other)
    }

    /// Whether `after` is `before` once the viewer asked for a whole picture of one instance.
    pub open spec fn asks(
        before: &DashboardViewer,
        id: Seq<char>,
        after: &DashboardViewer,
    ) -> bool {
        &&& after.same_but(before, id)
        &&& after.state(id) == (StreamState { recovery_mode: true, ..before.state(id) })
    }

    /// Whether `after` is `before` once a frame of one instance was made.
    pub open spec fn produces(
        before: (DashboardViewer, DashboardBroadcast),
        id: Seq<char>,
        frame: &RawFrame,
        instance_index: u8,
        out: Option<Outgoing>,
        after: (DashboardViewer, DashboardBroadcast),
    ) -> bool {
        let settings = before.1.settings();
        let was = before.0.state(id);
        let is = after.0.state(id);
        &&& after.1.settings() == settings
        &&& after.0.same_but(&before.0, id)
        &&& is.frame_count == was.next_count()
        &&& is.prev_frame == was.prev_frame
        &&& out is Some <==> encodable(
            frame,
            was.prev_frame,
            was.forces_keyframe(settings),
            settings.tile_size,
        )
        &&& match out {
            Some(o) => {
                &&& was.makes(frame, instance_index, settings, o)
                &&& is.recovery_mode == (was.recovery_mode && o.frame_type
                    != StreamFrameType::Keyframe)
                &&& after.1.cached_but(
                    &before.1,
                    id,
                    if o.frame_type == StreamFrameType::Keyframe {
                        Some(o.bytes@)
                    } else {
                        before.1.cached(id)
                    },
                )
                &&& after.1.counters().differs_in(
                    &before.1.counters(),
                    id,
                    before.1.counters().counts(id).produced(
                        o.bytes@.len() as u64,
                        o.frame_type == StreamFrameType::Keyframe,
                    ),
                )
            },
            None => after.1 == before.1 && is.recovery_mode == was.recovery_mode,
        }
    }

    /// Whether `after` is `before` once a frame of one instance was sent.
    pub open spec fn delivers(
        before: (DashboardViewer, DashboardBroadcast),
        id: Seq<char>,
        frame: RawFrame,
        after: (DashboardViewer, DashboardBroadcast),
    ) -> bool {
        &&& after.1.settings() == before.1.settings()
        &&& forall|other: Seq<char>| #[trigger] after.1.cached(other) == before.1.cached(other)
        &&& after.0.same_but(&before.0, id)
        &&& after.0.state(id) == (StreamState { prev_frame: Some(frame), ..before.0.state(id) })
        &&& after.1.counters().differs_in(
            &before.1.counters(),
            id,
            before.1.counters().counts(id).delivery(true, true),
        )
    }

    /// Whether `after` is `before` once a frame of one instance was dropped.
    pub open spec fn drops(
        before: (DashboardViewer, DashboardBroadcast),
        id: Seq<char>,
        frame_type: StreamFrameType,
        after: (DashboardViewer, DashboardBroadcast),
    ) -> bool {
        &&& after.1.settings() == before.1.settings()
        &&& forall|other: Seq<char>| #[trigger] after.1.cached(other) == before.1.cached(other)
        &&& after.0.same_but(&before.0, id)
        &&& after.0.state(id) == (StreamState {
            recovery_mode: before.0.state(id).recovery_mode || frame_type
                == StreamFrameType::Delta,
            ..before.0.state(id)
        })
        &&& after.1.counters().differs_in(
            &before.1.counters(),
            id,
            before.1.counters().counts(id).delivery(false, true),
        )
    }

    /// A viewer that was sent nothing yet.
    pub fn new() -> (viewer: Self)
        ensures
            viewer.wf(),
            forall|id: Seq<char>| #[trigger]
                viewer.state(id) == (StreamState {
                    prev_frame: None,
                    frame_count: 0,
                    recovery_mode: false,
                }),
    {
        DashboardViewer { states: StringMap::new() }
    }

    fn take(&mut self, id: &str) -> (state: StreamState)
        requires
            old(self).wf(),
        ensures
            final(self).wf(),
            state == old(self).state(id@),
            final(self).same_but(old(self), id@),
    {
        match self.states.remove(id) {
            Some(state) => state,
            None => StreamState::new(),
        }
    }

    fn put(&mut self, id: &str, state: StreamState)
        requires
            old(self).wf(),
        ensures
            final(self).wf(),
            final(self).state(id@) == state,
            final(self).same_but(old(self), id@),
    {
        let _ = self.states.insert(id, state);
    }

    /// Makes the frame that shows a picture of one instance to the viewer.
    pub fn produce(
        &mut self,
        broadcast: &mut DashboardBroadcast,
        instance_id: &str,
        frame: &RawFrame,
        instance_index: u8,
    ) -> (out: Option<Outgoing>)
        requires
            old(self).wf(),
            old(broadcast).wf(),
        ensures
            final(self).wf(),
            final(broadcast).wf(),
            Self::produces(
                (*old(self), *old(broadcast)),
                instance_id@,
                frame,
                instance_index,
                out,
                (*final(self), *final(broadcast)),
            ),
    {
        let mut state = self.take(instance_id);
        let out = broadcast.produce(&mut state, instance_id, frame, instance_index);
        self.put(instance_id, state);
        out
    }

    /// Notes and counts that a frame of one instance was sent.
    pub fn delivered(
        &mut self,
        broadcast: &mut DashboardBroadcast,
        instance_id: &str,
        frame: RawFrame,
    )
        requires
            old(self).wf(),
            old(broadcast).wf(),
        ensures
            final(self).wf(),
            final(broadcast).wf(),
            Self::delivers(
                (*old(self), *old(broadcast)),
                instance_id@,
                frame,
                (*final(self), *final(broadcast)),
            ),
    {
        let mut state = self.take(instance_id);
        broadcast.delivered(&mut state, instance_id, frame, true);
        self.put(instance_id, state);
    }

    /// Notes and counts that a frame of one instance was dropped.
    pub fn dropped(
        &mut self,
        broadcast: &mut DashboardBroadcast,
        instance_id: &str,
        frame_type: StreamFrameType,
    )
        requires
            old(self).wf(),
            old(broadcast).wf(),
        ensures
            final(self).wf(),
            final(broadcast).wf(),
            Self::drops(
                (*old(self), *old(broadcast)),
                instance_id@,
                frame_type,
                (*final(self), *final(broadcast)),
            ),
    {
        let mut state = self.take(instance_id);
        broadcast.dropped(&mut state, instance_id, frame_type, true);
        self.put(instance_id, state);
    }

    /// The viewer asked for whole pictures: the next frame of the instance is one.
    pub fn request_keyframe(&mut self, instance_id: &str)
        requires
            old(self).wf(),
        ensures
            final(self).wf(),
            Self::asks(old(self), instance_id@, final(self)),
    {
        let mut state = self.take(instance_id);
        state.request_keyframe();
        self.put(instance_id, state);
    }
}

/// What happens to a dashboard while it is served.
pub ghost enum DashboardStep {
    /// The viewer asks for a whole picture of an instance.
    Asked { id: Seq<char> },
    /// A frame is made of a picture of an instance, and sent where it is short enough or else dropped.
    Shown { id: Seq<char>, index: u8, frame: RawFrame, out: Outgoing },
}

impl DashboardStep {
    /// Whether `after` is `before` once this happened; `made` is what was between making a frame and
    /// sending or dropping it.
    pub open spec fn leads(
        self,
        before: (DashboardViewer, DashboardBroadcast),
        made: (DashboardViewer, DashboardBroadcast),
        after: (DashboardViewer, DashboardBroadcast),
    ) -> bool {
        match self {
            DashboardStep::Asked { id } => {
                &&& DashboardViewer::asks(&before.0, id, &after.0)
                &&& after.1 == before.1
            },
            DashboardStep::Shown { id, index, frame, out } => {
                &&& DashboardViewer::produces(before, id, &frame, index, Some(out), made)
                &&& if out.fits {
                    DashboardViewer::delivers(made, id, frame, after)
                } else {
                    DashboardViewer::drops(made, id, out.frame_type, after)
                }
            },
        }
    }

    /// Whether a frame of an instance is made.
    pub open spec fn shows(self, id: Seq<char>) -> bool {
        self is Shown && self->Shown_id == id
    }

    /// Whether a frame of an instance is made and sent.
    pub open spec fn sends(self, id: Seq<char>) -> bool {
        self.shows(id) && self->out.fits
    }
}

/// How many frames of an instance were made.
pub open spec fn shown_of(steps: Seq<DashboardStep>, id: Seq<char>) -> int
    decreases steps.len(),
{
    if steps.len() == 0 {
        0
    } else {
        shown_of(steps.drop_last(), id) + one_if(steps.last().shows(id))
    }
}

/// How many frames of an instance were sent.
pub open spec fn sent_of(steps: Seq<DashboardStep>, id: Seq<char>) -> int
    decreases steps.len(),
{
    if steps.len() == 0 {
        0
    } else {
        sent_of(steps.drop_last(), id) + one_if(steps.last().sends(id))
    }
}

/// Over everything that happens to a dashboard, each frame that is made of an instance is counted
/// once, as sent or as dropped, and dropped are just those that are too long. What is counted for
/// viewers of a single instance does not change.
pub proof fn law_dashboard_counters_balance(
    states: Seq<(DashboardViewer, DashboardBroadcast)>,
    between: Seq<(DashboardViewer, DashboardBroadcast)>,
    steps: Seq<DashboardStep>,
    id: Seq<char>,
)
    requires
        states.len() == steps.len() + 1,
        between.len() == steps.len(),
        forall|i: int|
            0 <= i < steps.len() ==> (#[trigger] steps[i]).leads(
                states[i],
                between[i],
                states[i + 1],
            ),
    ensures
        ({
            let first = states[0].1.counters().counts(id);
            let last = states.last().1.counters().counts(id);
            let made = shown_of(steps, id);
            let sent = sent_of(steps, id);
            &&& 0 <= sent <= made
            &&& states.last().1.settings() == states[0].1.settings()
            &&& last.produced_frames == wrapped(first.produced_frames + made)
            &&& last.dashboard_delivered == wrapped(first.dashboard_delivered + sent)
            &&& last.dashboard_dropped == wrapped(first.dashboard_dropped + (made - sent))
            &&& last.instance_delivered == first.instance_delivered
            &&& last.instance_dropped == first.instance_dropped
        }),
        forall|i: int|
            0 <= i < steps.len() && (#[trigger] steps[i]) is Shown ==> steps[i]->out.fits == (
            steps[i]->out.bytes@.len() <= states[0].1.settings().backpressure_limit),
    decreases steps.len(),
{
    let first = states[0].1.counters().counts(id);
    if steps.len() == 0 {
        lemma_wrapped_sum(0, first.produced_frames as int);
        lemma_wrapped_sum(0, first.dashboard_delivered as int);
        lemma_wrapped_sum(0, first.dashboard_dropped as int);
    } else {
        let n = steps.len() - 1;
        let earlier = states.drop_last();
        let fewer = steps.drop_last();
        let inner = between.drop_last();
        assert forall|i: int| 0 <= i < fewer.len() implies (#[trigger] fewer[i]).leads(
            earlier[i],
            inner[i],
            earlier[i + 1],
        ) by {
            assert(steps[i].leads(states[i], between[i], states[i + 1]));
        }
        law_dashboard_counters_balance(earlier, inner, fewer, id);
        let step = steps[n];
        assert(step.leads(states[n], between[n], states[n + 1]));
        let (made, sent) = (shown_of(fewer, id), sent_of(fewer, id));
        lemma_wrapped_sum(first.produced_frames + made, 1);
        lemma_wrapped_sum(first.dashboard_delivered + sent, 1);
        lemma_wrapped_sum(first.dashboard_dropped + (made - sent), 1);
        assert forall|i: int| 0 <= i < steps.len() && (#[trigger] steps[i]) is Shown implies
            steps[i]->out.fits == (steps[i]->out.bytes@.len()
            <= states[0].1.settings().backpressure_limit) by {
            if i < n {
                assert(fewer[i]->out.fits == (fewer[i]->out.bytes@.len()
                    <= earlier[0].1.settings().backpressure_limit));
            }
        }
        if step is Shown && !step.shows(id) {
            assert(between[n].1.counters().counts(id) == states[n].1.counters().counts(id));
            assert(states[n + 1].1.counters().counts(id) == between[n].1.counters().counts(id));
        }
    }
}

/// Every frame that a dashboard is shown of an instance carries the number of that instance, and the
/// first one is a whole picture.
pub proof fn law_dashboard_frames_are_tagged(
    states: Seq<(DashboardViewer, DashboardBroadcast)>,
    between: Seq<(DashboardViewer, DashboardBroadcast)>,
    steps: Seq<DashboardStep>,
    id: Seq<char>,
    i: int,
)
    requires
        states.len() == steps.len() + 1,
        between.len() == steps.len(),
        forall|j: int|
            0 <= j < steps.len() ==> (#[trigger] steps[j]).leads(
                states[j],
                between[j],
                states[j + 1],
            ),
        0 <= i < steps.len(),
        steps[i].shows(id),
    ensures
        steps[i]->out.bytes@.len() >= STREAM_HEADER_SIZE,
        steps[i]->out.bytes@[5] == steps[i]->out.frame_type.number(),
        steps[i]->out.bytes@[6] == steps[i]->index,
        states[0].0.state(id).prev_frame is None && (forall|j: int|
            0 <= j < i ==> !(#[trigger] steps[j]).shows(id)) ==> steps[i]->out.frame_type
            == StreamFrameType::Keyframe,
{
    let step = steps[i];
    assert(step.leads(states[i], between[i], states[i + 1]));
    let settings = states[i].1.settings();
    let was = states[i].0.state(id);
    let frame = step->frame;
    let payload = deflated(
        raw_payload(&frame, was.prev_frame, was.forces_keyframe(settings), settings.tile_size),
    );
    lemma_header_tags(
        step->out.frame_type,
        step->index,
        flags::DEFLATE_RAW,
        (frame.sequence % 0x1_0000_0000) as u32,
        (frame.timestamp_ms % 0x1_0000_0000) as u32,
        (frame.width % 0x1_0000) as u16,
        (frame.height % 0x1_0000) as u16,
        settings.tile_size,
        (frame.width * frame.height * 4) as u32,
        payload.len(),
        0,
    );
    if states[0].0.state(id).prev_frame is None && (forall|j: int|
        0 <= j < i ==> !(#[trigger] steps[j]).shows(id)) {
        lemma_nothing_was_sent(states, between, steps, id, i);
    }
}

/// While no frame of an instance is made, none is the last that was sent.
proof fn lemma_nothing_was_sent(
    states: Seq<(DashboardViewer, DashboardBroadcast)>,
    between: Seq<(DashboardViewer, DashboardBroadcast)>,
    steps: Seq<DashboardStep>,
    id: Seq<char>,
    n: int,
)
    requires
        states.len() == steps.len() + 1,
        between.len() == steps.len(),
        forall|j: int|
            0 <= j < steps.len() ==> (#[trigger] steps[j]).leads(
                states[j],
                between[j],
                states[j + 1],
            ),
        0 <= n <= steps.len(),
        forall|j: int| 0 <= j < n ==> !(#[trigger] steps[j]).shows(id),
    ensures
        states[n].0.state(id).prev_frame == states[0].0.state(id).prev_frame,
    decreases n,
{
    if n > 0 {
        lemma_nothing_was_sent(states, between, steps, id, n - 1);
        let step = steps[n - 1];
        assert(step.leads(states[n - 1], between[n - 1], states[n]));
        assert(!step.shows(id));
        if step is Shown {
            assert(between[n - 1].0.state(id) == states[n - 1].0.state(id));
            assert(states[n].0.state(id) == between[n - 1].0.state(id));
        } else if step->Asked_id != id {
            assert(states[n].0.state(id) == states[n - 1].0.state(id));
        }
    }
}

/// A difference that was dropped, and a request of the viewer, are made up for: the next frame of that
/// instance is a whole picture.
pub proof fn law_dropped_difference_is_made_up_for(
    before: (DashboardViewer, DashboardBroadcast),
    id: Seq<char>,
    made: (DashboardViewer, DashboardBroadcast),
    frame: &RawFrame,
    instance_index: u8,
    out: Outgoing,
    after: (DashboardViewer, DashboardBroadcast),
)
    requires
        DashboardViewer::drops(before, id, StreamFrameType::Delta, made) || DashboardViewer::asks(
            &before.0,
            id,
            &made.0,
        ),
        DashboardViewer::produces(made, id, frame, instance_index, Some(out), after),
    ensures
        out.frame_type == StreamFrameType::Keyframe,
        !after.0.state(id).recovery_mode,
{
}

/// A viewer has the picture that was delivered last, and one that was dropped is not taken for shown.
/// What was sent to one instance leaves the others as they were.
pub proof fn law_viewer_has_what_was_delivered(
    before: (DashboardViewer, DashboardBroadcast),
    id: Seq<char>,
    frame: RawFrame,
    frame_type: StreamFrameType,
    delivered: (DashboardViewer, DashboardBroadcast),
    dropped: (DashboardViewer, DashboardBroadcast),
    other: Seq<char>,
)
    requires
        DashboardViewer::delivers(before, id, frame, delivered),
        DashboardViewer::drops(before, id, frame_type, dropped),
        other != id,
    ensures
        delivered.0.state(id).prev_frame == Some(frame),
        delivered.0.state(id).recovery_mode == before.0.state(id).recovery_mode,
        dropped.0.state(id).prev_frame == before.0.state(id).prev_frame,
        dropped.0.state(id).recovery_mode <==> before.0.state(id).recovery_mode || frame_type
            == StreamFrameType::Delta,
        delivered.0.state(other) == before.0.state(other),
        dropped.0.state(other) == before.0.state(other),
        delivered.1.counters().counts(id).dashboard_delivered == (before.1.counters().counts(
            id,
        ).dashboard_delivered + 1) % 0x1_0000_0000_0000_0000,
        dropped.1.counters().counts(id).dashboard_dropped == (before.1.counters().counts(
            id,
        ).dashboard_dropped + 1) % 0x1_0000_0000_0000_0000,
{
}

/// The whole picture that was made last is kept for viewers that come later, whatever else is made.
pub proof fn law_last_picture_is_kept(
    before: (DashboardViewer, DashboardBroadcast),
    id: Seq<char>,
    frame: &RawFrame,
    instance_index: u8,
    out: Outgoing,
    after: (DashboardViewer, DashboardBroadcast),
    other: Seq<char>,
)
    requires
        DashboardViewer::produces(before, id, frame, instance_index, Some(out), after),
        other != id,
    ensures
        out.frame_type == StreamFrameType::Keyframe ==> after.1.cached(id) == Some(out.bytes@),
        out.frame_type != StreamFrameType::Keyframe ==> after.1.cached(id) == before.1.cached(id),
        after.1.cached(other) == before.1.cached(other),
        after.0.state(id).frame_count == (before.0.state(id).frame_count + 1) % 0x1_0000_0000,
        after.0.state(id).prev_frame == before.0.state(id).prev_frame,
{
}

/// Where the buffers hold whole pictures, a frame goes out just if its pixels can be counted in 32
/// bits.
pub proof fn law_whole_pictures_go_out(
    before: (DashboardViewer, DashboardBroadcast),
    id: Seq<char>,
    frame: &RawFrame,
    instance_index: u8,
    out: Option<Outgoing>,
    after: (DashboardViewer, DashboardBroadcast),
)
    requires
        DashboardViewer::produces(before, id, frame, instance_index, out, after),
        before.1.settings().tile_size > 0,
        frame.width > 0 && frame.height > 0 ==> (frame.height - 1) * frame.pitch + frame.width * 4
            <= frame.data@.len(),
        before.0.state(id).prev_frame matches Some(p) ==> p.data@.len() == frame.data@.len(),
    ensures
        out is Some <==> frame.width * frame.height * 4 <= 4_294_967_295,
        out is None ==> after.1 == before.1 && after.0.state(id).recovery_mode == before.0.state(
            id,
        ).recovery_mode,
{
    let settings = before.1.settings();
    let was = before.0.state(id);
    law_whole_pictures_can_be_sent(
        frame,
        was.prev_frame,
        was.forces_keyframe(settings),
        settings.tile_size,
    );
}

} // verus!
