//! The latest picture of each instance.
use crate::string_map::{StringMap, among, ascending};
use vstd::arithmetic::div_mod::lemma_add_mod_noop_right;
use vstd::prelude::*;

verus! {

/// How the pixels of a picture are stored.
#[derive(Debug, Clone, Copy, PartialEq, Eq, Structural)]
pub enum PixelFormat {
    /// Four bytes per pixel: blue, green, red, unused.
    XRGB8888,
    /// Two bytes per pixel.
    RGB565,
}

/// A picture as an instance produced it.
#[derive(Debug)]
pub struct RawFrame {
    pub width: u32,
    pub height: u32,
    /// How many bytes lie between the starts of two rows.
    pub pitch: u32,
    pub pixel_format: PixelFormat,
    pub data: Vec<u8>,
    pub sequence: u64,
    pub timestamp_ms: u64,
}

impl RawFrame {
    /// Whether two pictures are the same, byte for byte.
    pub open spec fn same(&self, other: &RawFrame) -> bool {
        &&& self.width == other.width
        &&& self.height == other.height
        &&& self.pitch == other.pitch
        &&& self.pixel_format == other.pixel_format
        &&& self.data@ == other.data@
        &&& self.sequence == other.sequence
        &&& self.timestamp_ms == other.timestamp_ms
    }

    /// A copy of the picture.
    pub fn copy(&self) -> (copy: RawFrame)
        ensures
            copy.same(self),
    {
        RawFrame {
            width: self.width,
            height: self.height,
            pitch: self.pitch,
            pixel_format: self.pixel_format,
            data: self.data.clone(),
            sequence: self.sequence,
            timestamp_ms: self.timestamp_ms,
        }
    }
}

/// The instances that produce pictures, the latest picture of each, and how many each has produced.
#[derive(Debug)]
pub struct FrameHub {
    channels: StringMap<Option<RawFrame>>,
    sequences: StringMap<u64>,
}

impl FrameHub {
    pub closed spec fn wf(&self) -> bool {
        self.channels.wf() && self.sequences.wf()
    }

    /// The registered instances, each with its latest picture.
    pub closed spec fn channels(&self) -> Map<Seq<char>, Option<RawFrame>> {
        self.channels@
    }

    /// How many pictures were pushed, by instance.
    pub closed spec fn sequences(&self) -> Map<Seq<char>, u64> {
        self.sequences@
    }

    /// The number of the next picture of an instance, which wraps around.
    pub open spec fn next_sequence(&self, id: Seq<char>) -> u64 {
        if self.sequences().dom().contains(id) {
            ((self.sequences()[id] + 1) % 0x1_0000_0000_0000_0000) as u64
        } else {
            1
        }
    }

    /// A hub without instances.
    pub fn new() -> (hub: Self)
        ensures
            hub.wf(),
            hub.channels() == Map::<Seq<char>, Option<RawFrame>>::empty(),
            hub.sequences() == Map::<Seq<char>, u64>::empty(),
    {
        FrameHub { channels: StringMap::new(), sequences: StringMap::new() }
    }

    /// Adds an instance, or starts it over: no picture, and numbers from 1.
    pub fn register_instance(&mut self, id: &str)
        requires
            old(self).wf(),
        ensures
            final(self).wf(),
            final(self).channels() == old(self).channels().insert(id@, None),
            final(self).sequences() == old(self).sequences().insert(id@, 0),
    {
        let _ = self.channels.insert(id, None);
        let _ = self.sequences.insert(id, 0);
    }

    /// Removes an instance and its picture.
    pub fn unregister_instance(&mut self, id: &str)
        requires
            old(self).wf(),
        ensures
            final(self).wf(),
            final(self).channels() == old(self).channels().remove(id@),
            final(self).sequences() == old(self).sequences().remove(id@),
    {
        let _ = self.channels.remove(id);
        let _ = self.sequences.remove(id);
    }

    /// Numbers a picture and stamps it with the time; a registered instance then shows it.
    pub fn push_frame(&mut self, id: &str, frame: RawFrame, now_ms: u64)
        requires
            old(self).wf(),
        ensures
            final(self).wf(),
            final(self).sequences() == old(self).sequences().insert(
                id@,
                old(self).next_sequence(id@),
            ),
            final(self).channels() == if old(self).channels().dom().contains(id@) {
                old(self).channels().insert(
                    id@,
                    Some(
                        (RawFrame {
                            sequence: old(self).next_sequence(id@),
                            timestamp_ms: now_ms,
                            ..frame
                        }),
                    ),
                )
            } else {
                old(self).channels()
            },
    {
        let sequence: u64 = match self.sequences.get(id) {
            Some(n) => n.wrapping_add(1),
            None => 1,
        };
        let _ = self.sequences.insert(id, sequence);
        if self.channels.contains_key(id) {
            let stamped = RawFrame { sequence, timestamp_ms: now_ms, ..frame };
            let _ = self.channels.insert(id, Some(stamped));
        }
    }

    /// The latest picture of an instance.
    pub fn latest_frame(&self, id: &str) -> (frame: Option<&RawFrame>)
        requires
            self.wf(),
        ensures
            match frame {
                Some(f) => self.channels().dom().contains(id@) && self.channels()[id@] == Some(*f),
                None => self.channels().dom().contains(id@) ==> self.channels()[id@] is None,
            },
    {
        match self.channels.get(id) {
            Some(channel) => channel.as_ref(),
            None => None,
        }
    }

    /// The registered instances in the order of their names.
    pub fn registered_instances(&self) -> (ids: Vec<String>)
        requires
            self.wf(),
        ensures
            ascending(ids@),
            forall|id: Seq<char>| #[trigger] among(ids@, id) <==> self.channels().dom().contains(id),
    {
        let keys = self.channels.keys();
        let mut ids: Vec<String> = Vec::new();
        let mut i: usize = 0;
        while i < keys.len()
            invariant
                i <= keys@.len(),
                ids@ == keys@.take(i as int),
            decreases keys.len() - i,
        {
            ids.push(keys[i].clone());
            i += 1;
            assert(keys@.take(i as int) =~= keys@.take(i - 1).push(keys@[i - 1]));
        }
        assert(keys@.take(i as int) =~= keys@);
        ids
    }
}

impl Default for FrameHub {
    fn default() -> (hub: Self)
        ensures
            hub.wf(),
            hub.channels() == Map::<Seq<char>, Option<RawFrame>>::empty(),
            hub.sequences() == Map::<Seq<char>, u64>::empty(),
    {
        FrameHub::new()
    }
}

/// Something that was done with a hub.
pub ghost enum HubStep {
    Register { id: Seq<char> },
    Unregister { id: Seq<char> },
    Push { id: Seq<char>, frame: RawFrame, now_ms: u64 },
}

impl HubStep {
    /// Whether `after` is `before` once this was done.
    pub open spec fn leads(self, before: &FrameHub, after: &FrameHub) -> bool {
        match self {
            HubStep::Register { id } => {
                &&& after.channels() == before.channels().insert(id, None)
                &&& after.sequences() == before.sequences().insert(id, 0)
            },
            HubStep::Unregister { id } => {
                &&& after.channels() == before.channels().remove(id)
                &&& after.sequences() == before.sequences().remove(id)
            },
            HubStep::Push { id, frame, now_ms } => {
                &&& after.sequences() == before.sequences().insert(id, before.next_sequence(id))
                &&& after.channels() == if before.channels().dom().contains(id) {
                    before.channels().insert(
                        id,
                        Some(
                            (RawFrame {
                                sequence: before.next_sequence(id),
                                timestamp_ms: now_ms,
                                ..frame
                            }),
                        ),
                    )
                } else {
                    before.channels()
                }
            },
        }
    }

    /// Whether it registers an instance.
    pub open spec fn registers(self, other: Seq<char>) -> bool {
        self matches HubStep::Register { id } && id == other
    }

    /// Whether it unregisters an instance.
    pub open spec fn unregisters(self, other: Seq<char>) -> bool {
        self matches HubStep::Unregister { id } && id == other
    }
}

/// How many pictures of an instance were pushed.
pub open spec fn pushes(steps: Seq<HubStep>, id: Seq<char>) -> int
    decreases steps.len(),
{
    if steps.len() == 0 {
        0
    } else {
        let before = pushes(steps.drop_last(), id);
        match steps.last() {
            HubStep::Push { id: pushed, .. } => if pushed == id {
                before + 1
            } else {
                before
            },
            _ => before,
        }
    }
}

/// The last picture of an instance that was pushed, with its time.
pub open spec fn last_pushed(steps: Seq<HubStep>, id: Seq<char>) -> Option<(RawFrame, u64)>
    decreases steps.len(),
{
    if steps.len() == 0 {
        None
    } else {
        match steps.last() {
            HubStep::Push { id: pushed, frame, now_ms } => if pushed == id {
                Some((frame, now_ms))
            } else {
                last_pushed(steps.drop_last(), id)
            },
            _ => last_pushed(steps.drop_last(), id),
        }
    }
}

/// The n-th picture that is pushed since an instance was registered has the number n, whatever
/// number it came with and whatever is done with other instances in between, and it is what the
/// instance shows. Numbers wrap around.
pub proof fn law_nth_picture_has_number_n(
    hubs: Seq<FrameHub>,
    steps: Seq<HubStep>,
    id: Seq<char>,
)
    requires
        hubs.len() == steps.len() + 1,
        hubs[0].channels().dom().contains(id),
        hubs[0].channels()[id] is None,
        hubs[0].sequences().dom().contains(id),
        hubs[0].sequences()[id] == 0,
        forall|i: int|
            0 <= i < steps.len() ==> (#[trigger] steps[i]).leads(&hubs[i], &hubs[i + 1])
                && !steps[i].registers(id) && !steps[i].unregisters(id),
    ensures
        ({
            let last = hubs.last();
            let n = pushes(steps, id);
            &&& 0 <= n
            &&& last.channels().dom().contains(id)
            &&& last.sequences().dom().contains(id)
            &&& last.sequences()[id] == n % 0x1_0000_0000_0000_0000
            &&& last_pushed(steps, id) is None <==> n == 0
            &&& last.channels()[id] == match last_pushed(steps, id) {
                Some((frame, now_ms)) => Some(
                    (RawFrame {
                        sequence: (n % 0x1_0000_0000_0000_0000) as u64,
                        timestamp_ms: now_ms,
                        ..frame
                    }),
                ),
                None => None,
            }
        }),
    decreases steps.len(),
{
    if steps.len() > 0 {
        let n = steps.len() - 1;
        let earlier = hubs.drop_last();
        let fewer = steps.drop_last();
        assert forall|i: int| 0 <= i < fewer.len() implies (#[trigger] fewer[i]).leads(
            &earlier[i],
            &earlier[i + 1],
        ) && !fewer[i].registers(id) && !fewer[i].unregisters(id) by {
            assert(steps[i].leads(&hubs[i], &hubs[i + 1]));
        }
        law_nth_picture_has_number_n(earlier, fewer, id);
        assert(steps[n].leads(&hubs[n], &hubs[n + 1]));
        let m: int = 0x1_0000_0000_0000_0000;
        let before = pushes(fewer, id);
        lemma_add_mod_noop_right(1, before, m);
        assert((before % m + 1) % m == (before + 1) % m);
    }
}

/// An instance that is not registered shows nothing, whatever is pushed for it.
pub proof fn law_unregistered_shows_nothing(
    hubs: Seq<FrameHub>,
    steps: Seq<HubStep>,
    id: Seq<char>,
)
    requires
        hubs.len() == steps.len() + 1,
        !hubs[0].channels().dom().contains(id),
        forall|i: int|
            0 <= i < steps.len() ==> (#[trigger] steps[i]).leads(&hubs[i], &hubs[i + 1])
                && !steps[i].registers(id),
    ensures
        !hubs.last().channels().dom().contains(id),
    decreases steps.len(),
{
    if steps.len() > 0 {
        let n = steps.len() - 1;
        let earlier = hubs.drop_last();
        let fewer = steps.drop_last();
        assert forall|i: int| 0 <= i < fewer.len() implies (#[trigger] fewer[i]).leads(
            &earlier[i],
            &earlier[i + 1],
        ) && !fewer[i].registers(id) by {
            assert(steps[i].leads(&hubs[i], &hubs[i + 1]));
        }
        law_unregistered_shows_nothing(earlier, fewer, id);
        assert(steps[n].leads(&hubs[n], &hubs[n + 1]));
    }
}

} // verus!
