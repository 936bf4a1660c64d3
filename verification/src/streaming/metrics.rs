//! Counters of what each instance produced and what reached its viewers.
use crate::string_map::StringMap;
use crate::text::{lemma_text_less_irreflexive, lemma_text_less_transitive, text_less};
use vstd::arithmetic::div_mod::{lemma_add_mod_noop, lemma_add_mod_noop_right};
use vstd::prelude::*;

verus! {

/// The counters of one instance. A counter wraps around.
#[derive(Debug, PartialEq, Eq)]
pub struct InstanceMetrics {
    pub instance_id: String,
    pub produced_frames: u64,
    pub produced_bytes: u64,
    pub keyframes: u64,
    pub deltas: u64,
    pub sequence_gaps: u64,
    pub dashboard_delivered: u64,
    pub dashboard_dropped: u64,
    pub instance_delivered: u64,
    pub instance_dropped: u64,
}

/// The counters of all instances, in the order of their names, and sums over them.
#[derive(Debug)]
pub struct MetricsSnapshot {
    pub instances: Vec<InstanceMetrics>,
    pub total_produced_frames: u64,
    pub total_produced_bytes: u64,
    pub total_dashboard_delivered: u64,
    pub total_dashboard_dropped: u64,
}

/// The numbers of one instance.
pub ghost struct Counts {
    pub produced_frames: u64,
    pub produced_bytes: u64,
    pub keyframes: u64,
    pub deltas: u64,
    pub sequence_gaps: u64,
    pub dashboard_delivered: u64,
    pub dashboard_dropped: u64,
    pub instance_delivered: u64,
    pub instance_dropped: u64,
}

/// The low 64 bits of a number.
pub open spec fn wrapped(n: int) -> u64 {
    (n % 0x1_0000_0000_0000_0000) as u64
}

impl Counts {
    pub open spec fn zero() -> Counts {
        Counts {
            produced_frames: 0,
            produced_bytes: 0,
            keyframes: 0,
            deltas: 0,
            sequence_gaps: 0,
            dashboard_delivered: 0,
            dashboard_dropped: 0,
            instance_delivered: 0,
            instance_dropped: 0,
        }
    }

    /// Whether every frame that was produced is a keyframe or a delta.
    pub open spec fn adds_up(self) -> bool {
        self.produced_frames == wrapped(self.keyframes + self.deltas)
    }

    /// One more frame of `bytes` bytes.
    pub open spec fn produced(self, bytes: u64, is_keyframe: bool) -> Counts {
        Counts {
            produced_frames: wrapped(self.produced_frames + 1),
            produced_bytes: wrapped(self.produced_bytes + bytes),
            keyframes: wrapped(
                self.keyframes + if is_keyframe {
                    1int
                } else {
                    0
                },
            ),
            deltas: wrapped(
                self.deltas + if is_keyframe {
                    0int
                } else {
                    1
                },
            ),
            ..self
        }
    }

    /// One more frame that reached a viewer or was dropped.
    pub open spec fn delivery(self, delivered: bool, is_dashboard: bool) -> Counts {
        match (is_dashboard, delivered) {
            (true, true) => Counts {
                dashboard_delivered: wrapped(self.dashboard_delivered + 1),
                ..self
            },
            (true, false) => Counts {
                dashboard_dropped: wrapped(self.dashboard_dropped + 1),
                ..self
            },
            (false, true) => Counts {
                instance_delivered: wrapped(self.instance_delivered + 1),
                ..self
            },
            (false, false) => Counts {
                instance_dropped: wrapped(self.instance_dropped + 1),
                ..self
            },
        }
    }

    /// One more gap in the sequence.
    pub open spec fn gap(self) -> Counts {
        Counts { sequence_gaps: wrapped(self.sequence_gaps + 1), ..self }
    }
}

impl InstanceMetrics {
    /// The numbers.
    pub open spec fn counts(self) -> Counts {
        Counts {
            produced_frames: self.produced_frames,
            produced_bytes: self.produced_bytes,
            keyframes: self.keyframes,
            deltas: self.deltas,
            sequence_gaps: self.sequence_gaps,
            dashboard_delivered: self.dashboard_delivered,
            dashboard_dropped: self.dashboard_dropped,
            instance_delivered: self.instance_delivered,
            instance_dropped: self.instance_dropped,
        }
    }

    fn zero(instance_id: &str) -> (m: InstanceMetrics)
        ensures
            m.instance_id@ == instance_id@,
            m.counts() == Counts::zero(),
    {
        InstanceMetrics {
            instance_id: instance_id.to_owned(),
            produced_frames: 0,
            produced_bytes: 0,
            keyframes: 0,
            deltas: 0,
            sequence_gaps: 0,
            dashboard_delivered: 0,
            dashboard_dropped: 0,
            instance_delivered: 0,
            instance_dropped: 0,
        }
    }

    /// A copy of the counters.
    pub fn copy(&self) -> (copy: InstanceMetrics)
        ensures
            copy == *self,
    {
        InstanceMetrics { instance_id: self.instance_id.clone(), ..*self }
    }
}

/// The sum of one counter over instances.
pub open spec fn sum(instances: Seq<InstanceMetrics>, counter: spec_fn(InstanceMetrics) -> u64) -> int
    decreases instances.len(),
{
    if instances.len() == 0 {
        0
    } else {
        sum(instances.drop_last(), counter) + counter(instances.last())
    }
}

/// Whether an instance is among others.
pub open spec fn listed(instances: Seq<InstanceMetrics>, id: Seq<char>) -> bool {
    exists|i: int| 0 <= i < instances.len() && #[trigger] instances[i].instance_id@ == id
}

/// The counters of all instances.
#[derive(Debug)]
pub struct StreamMetrics {
    instances: StringMap<InstanceMetrics>,
}

impl StreamMetrics {
    /// Counters stand under the names of their instances, and every frame that was produced was
    /// counted as a keyframe or as a delta.
    pub closed spec fn wf(&self) -> bool {
        &&& self.instances.wf()
        &&& forall|id: Seq<char>| #[trigger]
            self.instances@.dom().contains(id) ==> self.instances@[id].instance_id@ == id
                && self.instances@[id].counts().adds_up()
    }

    /// In every state the keyframes and the deltas of an instance add up to the frames that it
    /// produced.
    pub proof fn law_produced_frames_add_up(&self, id: Seq<char>)
        requires
            self.wf(),
        ensures
            self.counts(id).produced_frames == wrapped(
                self.counts(id).keyframes + self.counts(id).deltas,
            ),
    {
    }

    /// The instances with counters.
    pub closed spec fn known(&self) -> Set<Seq<char>> {
        self.instances@.dom()
    }

    /// The numbers of an instance: all zero until something was counted.
    pub closed spec fn counts(&self, id: Seq<char>) -> Counts {
        if self.instances@.dom().contains(id) {
            self.instances@[id].counts()
        } else {
            Counts::zero()
        }
    }

    /// Whether `self` is `before` with other numbers for one instance.
    pub open spec fn differs_in(&self, before: &StreamMetrics, id: Seq<char>, counts: Counts) -> bool {
        &&& self.known() == before.known().insert(id)
        &&& self.counts(id) == counts
        &&& forall|other: Seq<char>|
            other != id ==> #[trigger] self.counts(other) == before.counts(other)
    }

    /// No counters.
    pub fn new() -> (metrics: Self)
        ensures
            metrics.wf(),
            metrics.known() == Set::<Seq<char>>::empty(),
            forall|id: Seq<char>| #[trigger] metrics.counts(id) == Counts::zero(),
    {
        let metrics = StreamMetrics { instances: StringMap::new() };
        assert(metrics.known() =~= Set::<Seq<char>>::empty());
        metrics
    }

    fn take(&mut self, id: &str) -> (m: InstanceMetrics)
        requires
            old(self).wf(),
        ensures
            final(self).wf(),
            m.instance_id@ == id@,
            m.counts() == old(self).counts(id@),
            m.counts().adds_up(),
            final(self).instances@ == old(self).instances@.remove(id@),
    {
        match self.instances.remove(id) {
            Some(m) => m,
            None => InstanceMetrics::zero(id),
        }
    }

    fn put(&mut self, id: &str, m: InstanceMetrics, Ghost(before): Ghost<StreamMetrics>)
        requires
            old(self).wf(),
            m.instance_id@ == id@,
            m.counts().adds_up(),
            old(self).instances@ == before.instances@.remove(id@),
        ensures
            final(self).wf(),
            final(self).differs_in(&before, id@, m.counts()),
    {
        let _ = self.instances.insert(id, m);
        assert(self.known() =~= before.known().insert(id@));
    }

    /// Counts a frame that was produced.
    pub fn record_produced(&mut self, instance_id: &str, bytes: u64, is_keyframe: bool)
        requires
            old(self).wf(),
        ensures
            final(self).wf(),
            final(self).differs_in(
                old(self),
                instance_id@,
                old(self).counts(instance_id@).produced(bytes, is_keyframe),
            ),
    {
        let ghost before = *self;
        let mut m = self.take(instance_id);
        m.produced_frames = m.produced_frames.wrapping_add(1);
        m.produced_bytes = m.produced_bytes.wrapping_add(bytes);
        if is_keyframe {
            m.keyframes = m.keyframes.wrapping_add(1);
        } else {
            m.deltas = m.deltas.wrapping_add(1);
        }
        proof {
            let counts = before.counts(instance_id@);
            lemma_wrapped_once(counts.produced_frames, 1);
            lemma_wrapped_once(counts.produced_bytes, bytes);
            lemma_wrapped_once(counts.keyframes, 1);
            lemma_wrapped_once(counts.keyframes, 0);
            lemma_wrapped_once(counts.deltas, 1);
            lemma_wrapped_once(counts.deltas, 0);
            assert(m.counts() == counts.produced(bytes, is_keyframe));
            lemma_produced_adds_up(counts, bytes, is_keyframe);
        }
        self.put(instance_id, m, Ghost(before));
    }

    /// Counts a frame that reached a viewer, or did not.
    pub fn record_delivery(&mut self, instance_id: &str, delivered: bool, is_dashboard: bool)
        requires
            old(self).wf(),
        ensures
            final(self).wf(),
            final(self).differs_in(
                old(self),
                instance_id@,
                old(self).counts(instance_id@).delivery(delivered, is_dashboard),
            ),
    {
        let ghost before = *self;
        let mut m = self.take(instance_id);
        if is_dashboard {
            if delivered {
                m.dashboard_delivered = m.dashboard_delivered.wrapping_add(1);
            } else {
                m.dashboard_dropped = m.dashboard_dropped.wrapping_add(1);
            }
        } else if delivered {
            m.instance_delivered = m.instance_delivered.wrapping_add(1);
        } else {
            m.instance_dropped = m.instance_dropped.wrapping_add(1);
        }
        self.put(instance_id, m, Ghost(before));
    }

    /// Counts a gap in the sequence of an instance.
    pub fn record_sequence_gap(&mut self, instance_id: &str)
        requires
            old(self).wf(),
        ensures
            final(self).wf(),
            final(self).differs_in(old(self), instance_id@, old(self).counts(instance_id@).gap()),
    {
        let ghost before = *self;
        let mut m = self.take(instance_id);
        m.sequence_gaps = m.sequence_gaps.wrapping_add(1);
        self.put(instance_id, m, Ghost(before));
    }

    /// All counters, in the order of the instances' names.
    pub fn snapshot(&self) -> (snapshot: MetricsSnapshot)
        requires
            self.wf(),
        ensures
            snapshot.of(self),
    {
        let ghost frames = |m: InstanceMetrics| m.produced_frames;
        let ghost bytes = |m: InstanceMetrics| m.produced_bytes;
        let ghost delivered = |m: InstanceMetrics| m.dashboard_delivered;
        let ghost dropped = |m: InstanceMetrics| m.dashboard_dropped;
        let keys = self.instances.keys();
        let mut instances: Vec<InstanceMetrics> = Vec::new();
        let mut total_produced_frames: u64 = 0;
        let mut total_produced_bytes: u64 = 0;
        let mut total_dashboard_delivered: u64 = 0;
        let mut total_dashboard_dropped: u64 = 0;
        let mut i: usize = 0;
        while i < keys.len()
            invariant
                self.wf(),
                i <= keys@.len(),
                forall|j: int|
                    0 <= j < keys@.len() ==> self.instances@.dom().contains(#[trigger] keys@[j]@),
                instances@.len() == i,
                forall|j: int|
                    0 <= j < i ==> #[trigger] instances@[j] == self.instances@[keys@[j]@],
                total_produced_frames == wrapped(sum(instances@, frames)),
                total_produced_bytes == wrapped(sum(instances@, bytes)),
                total_dashboard_delivered == wrapped(sum(instances@, delivered)),
                total_dashboard_dropped == wrapped(sum(instances@, dropped)),
                frames == (|m: InstanceMetrics| m.produced_frames),
                bytes == (|m: InstanceMetrics| m.produced_bytes),
                delivered == (|m: InstanceMetrics| m.dashboard_delivered),
                dropped == (|m: InstanceMetrics| m.dashboard_dropped),
            decreases keys.len() - i,
        {
            assert(self.instances@.dom().contains(keys@[i as int]@));
            if let Some(m) = self.instances.get(&keys[i]) {
                let ghost before = instances@;
                instances.push(m.copy());
                proof {
                    assert(instances@.drop_last() =~= before);
                    assert(instances@.last() == *m);
                    assert(sum(instances@, frames) == sum(before, frames) + m.produced_frames);
                    assert(sum(instances@, bytes) == sum(before, bytes) + m.produced_bytes);
                    assert(sum(instances@, delivered) == sum(before, delivered)
                        + m.dashboard_delivered);
                    assert(sum(instances@, dropped) == sum(before, dropped) + m.dashboard_dropped);
                }
                total_produced_frames = total_produced_frames.wrapping_add(m.produced_frames);
                total_produced_bytes = total_produced_bytes.wrapping_add(m.produced_bytes);
                total_dashboard_delivered =
                    total_dashboard_delivered.wrapping_add(m.dashboard_delivered);
                total_dashboard_dropped = total_dashboard_dropped.wrapping_add(m.dashboard_dropped);
            }
            i += 1;
        }
        proof {
            assert forall|j: int| 0 <= j < instances@.len() implies #[trigger] instances@[j].instance_id@
                == keys@[j]@ by {
                assert(self.instances@.dom().contains(keys@[j]@));
            }
            assert forall|id: Seq<char>| #[trigger] listed(instances@, id)
                <==> self.known().contains(id) by {
                if self.known().contains(id) {
                    assert(crate::string_map::among(keys@, id));
                    let j = choose|j: int| 0 <= j < keys@.len() && #[trigger] keys@[j]@ == id;
                    assert(instances@[j].instance_id@ == id);
                }
            }
        }
        MetricsSnapshot {
            instances,
            total_produced_frames,
            total_produced_bytes,
            total_dashboard_delivered,
            total_dashboard_dropped,
        }
    }
}

impl MetricsSnapshot {
    /// Whether these are the counters of `metrics`: each instance once, in the order of their names,
    /// and the sums, which wrap around.
    pub open spec fn of(self, metrics: &StreamMetrics) -> bool {
        &&& forall|i: int, j: int|
            0 <= i < j < self.instances@.len() ==> text_less(
                #[trigger] self.instances@[i].instance_id@,
                #[trigger] self.instances@[j].instance_id@,
            )
        &&& forall|i: int|
            0 <= i < self.instances@.len() ==> (#[trigger] self.instances@[i]).counts()
                == metrics.counts(self.instances@[i].instance_id@)
        &&& forall|id: Seq<char>| #[trigger]
            listed(self.instances@, id) <==> metrics.known().contains(id)
        &&& self.total_produced_frames == wrapped(
            sum(self.instances@, |m: InstanceMetrics| m.produced_frames),
        )
        &&& self.total_produced_bytes == wrapped(
            sum(self.instances@, |m: InstanceMetrics| m.produced_bytes),
        )
        &&& self.total_dashboard_delivered == wrapped(
            sum(self.instances@, |m: InstanceMetrics| m.dashboard_delivered),
        )
        &&& self.total_dashboard_dropped == wrapped(
            sum(self.instances@, |m: InstanceMetrics| m.dashboard_dropped),
        )
    }
}

impl Default for StreamMetrics {
    fn default() -> (metrics: Self)
        ensures
            metrics.wf(),
            metrics.known() == Set::<Seq<char>>::empty(),
            forall|id: Seq<char>| #[trigger] metrics.counts(id) == Counts::zero(),
    {
        StreamMetrics::new()
    }
}

#[verifier::rlimit(30)]
proof fn lemma_produced_adds_up(counts: Counts, bytes: u64, is_keyframe: bool)
    requires
        counts.adds_up(),
    ensures
        counts.produced(bytes, is_keyframe).adds_up(),
{
    let (k, d): (int, int) = if is_keyframe {
        (counts.keyframes + 1, counts.deltas as int)
    } else {
        (counts.keyframes as int, counts.deltas + 1)
    };
    lemma_wrapped_sum(k, d);
    lemma_wrapped_sum(counts.keyframes + counts.deltas, 1);
}

/// A sum of two counters wraps around at most once.
proof fn lemma_wrapped_once(a: u64, b: u64)
    ensures
        wrapped(a + b) == if a + b < 0x1_0000_0000_0000_0000 {
            a + b
        } else {
            a + b - 0x1_0000_0000_0000_0000
        },
{
}

/// Wrapping around before a sum or after it is the same.
pub proof fn lemma_wrapped_sum(a: int, b: int)
    requires
        0 <= a,
        0 <= b,
    ensures
        wrapped(wrapped(a) + wrapped(b)) == wrapped(a + b),
        wrapped(wrapped(a) + b) == wrapped(a + b),
        b < 0x1_0000_0000_0000_0000 ==> wrapped(b) == b,
{
    let m: int = 0x1_0000_0000_0000_0000;
    lemma_add_mod_noop(a, b, m);
    lemma_add_mod_noop_right(b, a, m);
    assert((a + b) % m == (b + a) % m);
    assert(wrapped(a) as int == a % m);
    assert(wrapped(b) as int == b % m);
    assert((b + a % m) % m == (wrapped(a) + b) % m);
}

/// Something that was counted.
pub ghost enum Record {
    Produced { id: Seq<char>, bytes: u64, is_keyframe: bool },
    Delivery { id: Seq<char>, delivered: bool, is_dashboard: bool },
    Gap { id: Seq<char> },
}

impl Record {
    /// The instance that it was counted for.
    pub open spec fn id(self) -> Seq<char> {
        match self {
            Record::Produced { id, .. } => id,
            Record::Delivery { id, .. } => id,
            Record::Gap { id } => id,
        }
    }

    /// Whether `after` is `before` once this was counted.
    pub open spec fn leads(self, before: &StreamMetrics, after: &StreamMetrics) -> bool {
        let counts = before.counts(self.id());
        match self {
            Record::Produced { id, bytes, is_keyframe } => after.differs_in(
                before,
                id,
                counts.produced(bytes, is_keyframe),
            ),
            Record::Delivery { id, delivered, is_dashboard } => after.differs_in(
                before,
                id,
                counts.delivery(delivered, is_dashboard),
            ),
            Record::Gap { id } => after.differs_in(before, id, counts.gap()),
        }
    }
}

/// One where a condition holds, else zero.
pub open spec fn one_if(holds: bool) -> int {
    if holds {
        1
    } else {
        0
    }
}

/// What was counted for one instance, as numbers without bounds.
pub ghost struct Tally {
    pub frames: int,
    pub bytes: int,
    pub keyframes: int,
    pub deltas: int,
    pub gaps: int,
    pub dashboard_delivered: int,
    pub dashboard_dropped: int,
    pub instance_delivered: int,
    pub instance_dropped: int,
}

/// The sums over all that was counted for an instance.
pub open spec fn tally(records: Seq<Record>, id: Seq<char>) -> Tally
    decreases records.len(),
{
    if records.len() == 0 {
        Tally {
            frames: 0,
            bytes: 0,
            keyframes: 0,
            deltas: 0,
            gaps: 0,
            dashboard_delivered: 0,
            dashboard_dropped: 0,
            instance_delivered: 0,
            instance_dropped: 0,
        }
    } else {
        let t = tally(records.drop_last(), id);
        if records.last().id() != id {
            t
        } else {
            match records.last() {
                Record::Produced { bytes, is_keyframe, .. } => Tally {
                    frames: t.frames + 1,
                    bytes: t.bytes + bytes,
                    keyframes: t.keyframes + one_if(is_keyframe),
                    deltas: t.deltas + one_if(!is_keyframe),
                    ..t
                },
                Record::Delivery { delivered, is_dashboard, .. } => Tally {
                    dashboard_delivered: t.dashboard_delivered + one_if(is_dashboard && delivered),
                    dashboard_dropped: t.dashboard_dropped + one_if(is_dashboard && !delivered),
                    instance_delivered: t.instance_delivered + one_if(!is_dashboard && delivered),
                    instance_dropped: t.instance_dropped + one_if(!is_dashboard && !delivered),
                    ..t
                },
                Record::Gap { .. } => Tally { gaps: t.gaps + 1, ..t },
            }
        }
    }
}

impl Tally {
    /// The counters that hold these sums. A counter wraps around.
    pub open spec fn counters(self) -> Counts {
        Counts {
            produced_frames: wrapped(self.frames),
            produced_bytes: wrapped(self.bytes),
            keyframes: wrapped(self.keyframes),
            deltas: wrapped(self.deltas),
            sequence_gaps: wrapped(self.gaps),
            dashboard_delivered: wrapped(self.dashboard_delivered),
            dashboard_dropped: wrapped(self.dashboard_dropped),
            instance_delivered: wrapped(self.instance_delivered),
            instance_dropped: wrapped(self.instance_dropped),
        }
    }
}

/// Whether something was counted for an instance.
pub open spec fn counted(records: Seq<Record>, id: Seq<char>) -> bool {
    exists|i: int| 0 <= i < records.len() && (#[trigger] records[i]).id() == id
}

proof fn lemma_tally(records: Seq<Record>, id: Seq<char>)
    ensures
        ({
            let t = tally(records, id);
            &&& 0 <= t.frames && 0 <= t.bytes && 0 <= t.keyframes && 0 <= t.deltas && 0 <= t.gaps
            &&& 0 <= t.dashboard_delivered && 0 <= t.dashboard_dropped
            &&& 0 <= t.instance_delivered && 0 <= t.instance_dropped
            &&& t.frames == t.keyframes + t.deltas
        }),
    decreases records.len(),
{
    if records.len() > 0 {
        lemma_tally(records.drop_last(), id);
    }
}

/// Whatever was counted since there were no counters, and in whatever order, the counters of each
/// instance are the sums over what was counted for it, and the instances with counters are those for
/// which anything was. The frames are the keyframes and the deltas.
pub proof fn law_counters_are_sums(
    states: Seq<StreamMetrics>,
    records: Seq<Record>,
    id: Seq<char>,
)
    requires
        states.len() == records.len() + 1,
        states[0].known() == Set::<Seq<char>>::empty(),
        forall|other: Seq<char>| #[trigger] states[0].counts(other) == Counts::zero(),
        forall|i: int|
            0 <= i < records.len() ==> (#[trigger] records[i]).leads(&states[i], &states[i + 1]),
    ensures
        states.last().counts(id) == tally(records, id).counters(),
        tally(records, id).frames == tally(records, id).keyframes + tally(records, id).deltas,
        states.last().known().contains(id) <==> counted(records, id),
    decreases records.len(),
{
    lemma_tally(records, id);
    if records.len() > 0 {
        let n = records.len() - 1;
        let earlier = states.drop_last();
        let fewer = records.drop_last();
        assert forall|i: int| 0 <= i < fewer.len() implies (#[trigger] fewer[i]).leads(
            &earlier[i],
            &earlier[i + 1],
        ) by {
            assert(records[i].leads(&states[i], &states[i + 1]));
        }
        law_counters_are_sums(earlier, fewer, id);
        lemma_tally(fewer, id);
        let t = tally(fewer, id);
        let last = records[n];
        assert(last.leads(&states[n], &states[n + 1]));
        lemma_wrapped_sum(t.frames, 1);
        lemma_wrapped_sum(t.keyframes, 1);
        lemma_wrapped_sum(t.keyframes, 0);
        lemma_wrapped_sum(t.deltas, 1);
        lemma_wrapped_sum(t.deltas, 0);
        lemma_wrapped_sum(t.gaps, 1);
        lemma_wrapped_sum(t.dashboard_delivered, 1);
        lemma_wrapped_sum(t.dashboard_dropped, 1);
        lemma_wrapped_sum(t.instance_delivered, 1);
        lemma_wrapped_sum(t.instance_dropped, 1);
        if let Record::Produced { bytes, .. } = last {
            lemma_wrapped_sum(t.bytes, bytes as int);
        }
        assert(counted(records, id) <==> counted(fewer, id) || last.id() == id) by {
            if counted(fewer, id) {
                let i = choose|i: int| 0 <= i < fewer.len() && (#[trigger] fewer[i]).id() == id;
                assert(records[i].id() == id);
            }
            if counted(records, id) && last.id() != id {
                let i = choose|i: int| 0 <= i < records.len() && (#[trigger] records[i]).id() == id;
                assert(fewer[i].id() == id);
            }
        }
    }
}

/// Two snapshots of the same counters hold the same instances in the same order, with the same
/// numbers and the same sums.
pub proof fn law_snapshots_agree(a: MetricsSnapshot, b: MetricsSnapshot, metrics: &StreamMetrics)
    requires
        a.of(metrics),
        b.of(metrics),
    ensures
        a.instances@.len() == b.instances@.len(),
        forall|i: int|
            0 <= i < a.instances@.len() ==> (#[trigger] a.instances@[i]).instance_id@
                == b.instances@[i].instance_id@ && a.instances@[i].counts()
                == b.instances@[i].counts(),
        a.total_produced_frames == b.total_produced_frames,
        a.total_produced_bytes == b.total_produced_bytes,
        a.total_dashboard_delivered == b.total_dashboard_delivered,
        a.total_dashboard_dropped == b.total_dashboard_dropped,
{
    let (x, y) = (a.instances@, b.instances@);
    lemma_same_order(x, y, x.len() as int);
    lemma_same_order(y, x, y.len() as int);
    assert forall|i: int| 0 <= i < x.len() implies (#[trigger] x[i]).counts() == y[i].counts() by {
        assert(x[i].instance_id@ == y[i].instance_id@);
    }
    lemma_same_sum(x, y, |m: InstanceMetrics| m.produced_frames);
    lemma_same_sum(x, y, |m: InstanceMetrics| m.produced_bytes);
    lemma_same_sum(x, y, |m: InstanceMetrics| m.dashboard_delivered);
    lemma_same_sum(x, y, |m: InstanceMetrics| m.dashboard_dropped);
}

spec fn in_order(instances: Seq<InstanceMetrics>) -> bool {
    forall|i: int, j: int|
        0 <= i < j < instances.len() ==> text_less(
            #[trigger] instances[i].instance_id@,
            #[trigger] instances[j].instance_id@,
        )
}

/// Two lists in order that hold the same instances start with the same ones.
proof fn lemma_same_order(x: Seq<InstanceMetrics>, y: Seq<InstanceMetrics>, n: int)
    requires
        in_order(x),
        in_order(y),
        forall|id: Seq<char>| #[trigger] listed(x, id) <==> listed(y, id),
        0 <= n <= x.len(),
    ensures
        n <= y.len(),
        forall|i: int|
            0 <= i < n ==> (#[trigger] x[i]).instance_id@ == y[i].instance_id@,
    decreases n,
{
    if n > 0 {
        lemma_same_order(x, y, n - 1);
        let i = n - 1;
        let id = x[i].instance_id@;
        assert(listed(x, id));
        assert(listed(y, id));
        let j = choose|j: int| 0 <= j < y.len() && #[trigger] y[j].instance_id@ == id;
        lemma_text_less_irreflexive(id);
        if j < i {
            assert(x[j].instance_id@ == y[j].instance_id@);
            assert(text_less(x[j].instance_id@, x[i].instance_id@));
        } else if j > i {
            let other = y[i].instance_id@;
            lemma_text_less_irreflexive(other);
            assert(text_less(other, id));
            assert(listed(y, other));
            assert(listed(x, other));
            let k = choose|k: int| 0 <= k < x.len() && #[trigger] x[k].instance_id@ == other;
            if k < i {
                assert(x[k].instance_id@ == y[k].instance_id@);
                assert(text_less(y[k].instance_id@, y[i].instance_id@));
            } else if k > i {
                assert(text_less(id, other));
                lemma_text_less_transitive(id, other, id);
            }
        }
    }
}

proof fn lemma_same_sum(
    x: Seq<InstanceMetrics>,
    y: Seq<InstanceMetrics>,
    counter: spec_fn(InstanceMetrics) -> u64,
)
    requires
        x.len() == y.len(),
        forall|i: int| 0 <= i < x.len() ==> counter(#[trigger] x[i]) == counter(y[i]),
    ensures
        sum(x, counter) == sum(y, counter),
    decreases x.len(),
{
    if x.len() > 0 {
        let (x1, y1) = (x.drop_last(), y.drop_last());
        assert forall|i: int| 0 <= i < x1.len() implies counter(#[trigger] x1[i]) == counter(
            y1[i],
        ) by {
            assert(counter(x[i]) == counter(y[i]));
        }
        lemma_same_sum(x1, y1, counter);
        assert(counter(x[x.len() - 1]) == counter(y[y.len() - 1]));
    }
}

/// Every record moves just its own counters, by one or by the bytes that it tells of; counters wrap
/// around at 2 to the power of 64.
pub proof fn law_records_move_their_counters(c: Counts, bytes: u64)
    ensures
        ({
            let whole = c.produced(bytes, true);
            let part = c.produced(bytes, false);
            let m = 0x1_0000_0000_0000_0000int;
            &&& whole == (Counts {
                produced_frames: ((c.produced_frames + 1) % m) as u64,
                produced_bytes: ((c.produced_bytes + bytes) % m) as u64,
                keyframes: ((c.keyframes + 1) % m) as u64,
                ..c
            })
            &&& part == (Counts {
                produced_frames: ((c.produced_frames + 1) % m) as u64,
                produced_bytes: ((c.produced_bytes + bytes) % m) as u64,
                deltas: ((c.deltas + 1) % m) as u64,
                ..c
            })
            &&& c.delivery(true, true) == (Counts {
                dashboard_delivered: ((c.dashboard_delivered + 1) % m) as u64,
                ..c
            })
            &&& c.delivery(false, true) == (Counts {
                dashboard_dropped: ((c.dashboard_dropped + 1) % m) as u64,
                ..c
            })
            &&& c.delivery(true, false) == (Counts {
                instance_delivered: ((c.instance_delivered + 1) % m) as u64,
                ..c
            })
            &&& c.delivery(false, false) == (Counts {
                instance_dropped: ((c.instance_dropped + 1) % m) as u64,
                ..c
            })
            &&& c.gap() == (Counts {
                sequence_gaps: ((c.sequence_gaps + 1) % m) as u64,
                ..c
            })
        }),
{
    let m = 0x1_0000_0000_0000_0000int;
    assert(c.keyframes as int % m == c.keyframes && c.deltas as int % m == c.deltas);
}

/// The totals of a snapshot are the sums over all its instances.
pub proof fn law_totals_are_sums(snapshot: MetricsSnapshot, metrics: &StreamMetrics)
    requires
        snapshot.of(metrics),
    ensures
        ({
            let all = snapshot.instances@;
            let m = 0x1_0000_0000_0000_0000int;
            let frames = all.map_values(|i: InstanceMetrics| i.produced_frames as int);
            let bytes = all.map_values(|i: InstanceMetrics| i.produced_bytes as int);
            let delivered = all.map_values(|i: InstanceMetrics| i.dashboard_delivered as int);
            let dropped = all.map_values(|i: InstanceMetrics| i.dashboard_dropped as int);
            let plus = |a: int, b: int| a + b;
            &&& snapshot.total_produced_frames as int == frames.fold_left(0, plus) % m
            &&& snapshot.total_produced_bytes as int == bytes.fold_left(0, plus) % m
            &&& snapshot.total_dashboard_delivered as int == delivered.fold_left(0, plus) % m
            &&& snapshot.total_dashboard_dropped as int == dropped.fold_left(0, plus) % m
        }),
{
    let all = snapshot.instances@;
    lemma_sum_is_fold(all, |i: InstanceMetrics| i.produced_frames);
    lemma_sum_is_fold(all, |i: InstanceMetrics| i.produced_bytes);
    lemma_sum_is_fold(all, |i: InstanceMetrics| i.dashboard_delivered);
    lemma_sum_is_fold(all, |i: InstanceMetrics| i.dashboard_dropped);
    assert(all.map_values(|i: InstanceMetrics| i.produced_frames as int) =~= numbers(
        all,
        |i: InstanceMetrics| i.produced_frames,
    ));
    assert(all.map_values(|i: InstanceMetrics| i.produced_bytes as int) =~= numbers(
        all,
        |i: InstanceMetrics| i.produced_bytes,
    ));
    assert(all.map_values(|i: InstanceMetrics| i.dashboard_delivered as int) =~= numbers(
        all,
        |i: InstanceMetrics| i.dashboard_delivered,
    ));
    assert(all.map_values(|i: InstanceMetrics| i.dashboard_dropped as int) =~= numbers(
        all,
        |i: InstanceMetrics| i.dashboard_dropped,
    ));
}

spec fn numbers(all: Seq<InstanceMetrics>, counter: spec_fn(InstanceMetrics) -> u64) -> Seq<int> {
    Seq::new(all.len(), |i: int| counter(all[i]) as int)
}

proof fn lemma_sum_is_fold(all: Seq<InstanceMetrics>, counter: spec_fn(InstanceMetrics) -> u64)
    ensures
        sum(all, counter) == numbers(all, counter).fold_left(0, |a: int, b: int| a + b),
        0 <= sum(all, counter),
    decreases all.len(),
{
    if all.len() > 0 {
        lemma_sum_is_fold(all.drop_last(), counter);
        assert(numbers(all, counter).drop_last() =~= numbers(all.drop_last(), counter));
    }
}

/// What is counted for one instance leaves the others as they were.
pub proof fn law_other_instances_are_left(
    before: &StreamMetrics,
    after: &StreamMetrics,
    id: Seq<char>,
    counts: Counts,
    other: Seq<char>,
)
    requires
        after.differs_in(before, id, counts),
    ensures
        after.counts(id) == counts,
        other != id ==> after.counts(other) == before.counts(other),
        after.known().contains(other) <==> other == id || before.known().contains(other),
{
}

/// A snapshot tells the counters of every instance just once, in the order of their names.
pub proof fn law_snapshot_tells_each_instance(
    snapshot: MetricsSnapshot,
    metrics: &StreamMetrics,
    id: Seq<char>,
    i: int,
    j: int,
)
    requires
        snapshot.of(metrics),
        0 <= i < snapshot.instances@.len(),
        0 <= j < snapshot.instances@.len(),
    ensures
        ({
            let all = snapshot.instances@;
            let counts = metrics.counts(all[i].instance_id@);
            &&& i < j ==> text_less(all[i].instance_id@, all[j].instance_id@)
            &&& metrics.known().contains(id) <==> exists|k: int|
                0 <= k < all.len() && (#[trigger] all[k]).instance_id@ == id
            &&& all[i].produced_frames == counts.produced_frames
            &&& all[i].produced_bytes == counts.produced_bytes
            &&& all[i].keyframes == counts.keyframes
            &&& all[i].deltas == counts.deltas
            &&& all[i].sequence_gaps == counts.sequence_gaps
            &&& all[i].dashboard_delivered == counts.dashboard_delivered
            &&& all[i].dashboard_dropped == counts.dashboard_dropped
            &&& all[i].instance_delivered == counts.instance_delivered
            &&& all[i].instance_dropped == counts.instance_dropped
        }),
{
    let all = snapshot.instances@;
    assert(listed(all, id) <==> metrics.known().contains(id));
    if metrics.known().contains(id) {
        let k = choose|k: int| 0 <= k < all.len() && #[trigger] all[k].instance_id@ == id;
        assert(all[k].instance_id@ == id);
    }
    assert(all[i].counts() == metrics.counts(all[i].instance_id@));
}

} // verus!
