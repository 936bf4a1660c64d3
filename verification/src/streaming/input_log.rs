//! The inputs that were sent to each session, and how they ended.
use crate::ids::{is_random_uuid, new_uuid};
use crate::string_map::{StringMap, among, ascending};
use crate::text::text_less;
use crate::time::Timestamp;
use std::collections::VecDeque;
use vstd::prelude::*;

verus! {

/// How many ended inputs a session remembers.
pub const MAX_RECENT: usize = 100;

/// How an input ended.
#[derive(Debug, Clone, Copy, PartialEq, Eq, Structural)]
pub enum InputEventStatus {
    Pending,
    Completed,
    Failed,
}

/// An input to a session.
#[derive(Debug)]
pub struct InputEvent {
    pub event_id: String,
    pub session_id: String,
    pub action: String,
    pub button: Option<String>,
    pub status: InputEventStatus,
    pub started_at: Timestamp,
    pub completed_at: Option<Timestamp>,
    pub latency_ms: Option<i64>,
}

fn copy_text(text: &Option<String>) -> (copy: Option<String>)
    ensures
        copy == *text,
{
    match text {
        Some(t) => Some(t.clone()),
        None => None,
    }
}

impl InputEvent {
    /// A copy of the event.
    pub fn copy(&self) -> (copy: InputEvent)
        ensures
            copy == *self,
    {
        InputEvent {
            event_id: self.event_id.clone(),
            session_id: self.session_id.clone(),
            action: self.action.clone(),
            button: copy_text(&self.button),
            ..*self
        }
    }

    /// The event once it has ended.
    pub open spec fn ended(
        self,
        status: InputEventStatus,
        at: Timestamp,
        latency_ms: Option<i64>,
    ) -> InputEvent {
        InputEvent { status, completed_at: Some(at), latency_ms, ..self }
    }
}

#[derive(Debug)]
struct SessionLog {
    recent: VecDeque<InputEvent>,
    pending: StringMap<InputEvent>,
}

/// What a session remembers once another event has ended: the oldest makes room.
pub open spec fn remembered(recent: Seq<InputEvent>, event: InputEvent) -> Seq<InputEvent> {
    if recent.len() >= MAX_RECENT {
        recent.drop_first().push(event)
    } else {
        recent.push(event)
    }
}

/// The inputs of all sessions.
#[derive(Debug)]
pub struct InputLogBus {
    sessions: StringMap<SessionLog>,
}

impl InputLogBus {
    spec fn log_wf(log: SessionLog, session: Seq<char>) -> bool {
        &&& log.pending.wf()
        &&& log.recent@.len() <= MAX_RECENT
        &&& forall|id: Seq<char>| #[trigger]
            log.pending@.dom().contains(id) ==> log.pending@[id].event_id@ == id
                && log.pending@[id].session_id@ == session
    }

    /// Events stand under their own names, and no session remembers too many.
    pub closed spec fn wf(&self) -> bool {
        &&& self.sessions.wf()
        &&& forall|session: Seq<char>| #[trigger]
            self.sessions@.dom().contains(session) ==> Self::log_wf(
                self.sessions@[session],
                session,
            )
    }

    /// The ended inputs of a session that it remembers, oldest first.
    pub closed spec fn recent_of(&self, session: Seq<char>) -> Seq<InputEvent> {
        if self.sessions@.dom().contains(session) {
            self.sessions@[session].recent@
        } else {
            Seq::empty()
        }
    }

    /// The inputs of a session that have not ended, by their names.
    pub closed spec fn pending_of(&self, session: Seq<char>) -> Map<Seq<char>, InputEvent> {
        if self.sessions@.dom().contains(session) {
            self.sessions@[session].pending@
        } else {
            Map::empty()
        }
    }

    /// Whether an input of a session has not ended.
    pub open spec fn holds(&self, session: Seq<char>, event_id: Seq<char>) -> bool {
        self.pending_of(session).dom().contains(event_id)
    }

    /// Whether all sessions but one are as they were.
    pub open spec fn same_but(&self, before: &InputLogBus, session: Seq<char>) -> bool {
        forall|other: Seq<char>|
            #![trigger self.recent_of(other)]
            #![trigger self.pending_of(other)]
            other != session ==> self.recent_of(other) == before.recent_of(other)
                && self.pending_of(other) == before.pending_of(other)
    }

    /// No session remembers more than [`MAX_RECENT`] inputs.
    pub proof fn law_recent_is_bounded(&self, session: Seq<char>)
        requires
            self.wf(),
        ensures
            self.recent_of(session).len() <= MAX_RECENT,
    {
    }

    /// A log without inputs.
    pub fn new() -> (bus: Self)
        ensures
            bus.wf(),
            forall|session: Seq<char>|
                #![trigger bus.recent_of(session)]
                #![trigger bus.pending_of(session)]
                bus.recent_of(session) == Seq::<InputEvent>::empty() && bus.pending_of(session)
                    == Map::<Seq<char>, InputEvent>::empty(),
    {
        InputLogBus { sessions: StringMap::new() }
    }

    /// Notes an input that starts, under a given name and time.
    pub fn begin_input_at(
        &mut self,
        event_id: String,
        session_id: &str,
        action: &str,
        button: Option<&str>,
        started_at: Timestamp,
    )
        requires
            old(self).wf(),
        ensures
            final(self).wf(),
            final(self).same_but(old(self), session_id@),
            final(self).recent_of(session_id@) == old(self).recent_of(session_id@),
            ({
                let pending = final(self).pending_of(session_id@);
                let event = pending[event_id@];
                &&& pending == old(self).pending_of(session_id@).insert(event_id@, event)
                &&& event.event_id@ == event_id@
                &&& event.session_id@ == session_id@
                &&& event.action@ == action@
                &&& match button {
                    Some(name) => event.button matches Some(b) && b@ == name@,
                    None => event.button is None,
                }
                &&& event.status == InputEventStatus::Pending
                &&& event.started_at == started_at
                &&& event.completed_at is None
                &&& event.latency_ms is None
            }),
    {
        let mut log = match self.sessions.remove(session_id) {
            Some(log) => log,
            None => SessionLog { recent: VecDeque::new(), pending: StringMap::new() },
        };
        let button = match button {
            Some(name) => Some(name.to_owned()),
            None => None,
        };
        let key = event_id.clone();
        let event = InputEvent {
            event_id,
            session_id: session_id.to_owned(),
            action: action.to_owned(),
            button,
            status: InputEventStatus::Pending,
            started_at,
            completed_at: None,
            latency_ms: None,
        };
        let _ = log.pending.insert(&key, event);
        let _ = self.sessions.insert(session_id, log);
    }

    /// Notes an input that starts now, under a new name, which is handed back.
    pub fn begin_input(&mut self, session_id: &str, action: &str, button: Option<&str>) -> (event_id:
        String)
        requires
            old(self).wf(),
        ensures
            final(self).wf(),
            is_random_uuid(event_id@),
            final(self).same_but(old(self), session_id@),
            final(self).recent_of(session_id@) == old(self).recent_of(session_id@),
            ({
                let pending = final(self).pending_of(session_id@);
                let event = pending[event_id@];
                &&& pending == old(self).pending_of(session_id@).insert(event_id@, event)
                &&& event.event_id@ == event_id@
                &&& event.session_id@ == session_id@
                &&& event.action@ == action@
                &&& match button {
                    Some(name) => event.button matches Some(b) && b@ == name@,
                    None => event.button is None,
                }
                &&& event.status == InputEventStatus::Pending
                &&& event.started_at.is_reading()
                &&& event.started_at.wf()
                &&& event.completed_at is None
                &&& event.latency_ms is None
            }),
    {
        let event_id = new_uuid();
        self.begin_input_at(event_id.clone(), session_id, action, button, Timestamp::now());
        event_id
    }

    /// The first session, by name, in which an input has not ended.
    fn holder(&self, event_id: &str) -> (session: Option<String>)
        requires
            self.wf(),
        ensures
            match session {
                Some(s) => self.holds(s@, event_id@) && forall|other: Seq<char>| #[trigger]
                    self.holds(other, event_id@) ==> other == s@ || text_less(s@, other),
                None => forall|other: Seq<char>| !#[trigger] self.holds(other, event_id@),
            },
    {
        let keys = self.sessions.keys();
        let mut i: usize = 0;
        while i < keys.len()
            invariant
                self.wf(),
                i <= keys@.len(),
                ascending(keys@),
                forall|k: Seq<char>| #[trigger] among(keys@, k) <==> self.sessions@.dom().contains(k),
                forall|j: int|
                    0 <= j < keys@.len() ==> self.sessions@.dom().contains(#[trigger] keys@[j]@),
                forall|j: int| 0 <= j < i ==> !self.holds(#[trigger] keys@[j]@, event_id@),
            decreases keys.len() - i,
        {
            assert(self.sessions@.dom().contains(keys@[i as int]@));
            if let Some(log) = self.sessions.get(&keys[i]) {
                if log.pending.contains_key(event_id) {
                    proof {
                        assert forall|other: Seq<char>| #[trigger]
                            self.holds(other, event_id@) implies other == keys@[i as int]@
                            || text_less(keys@[i as int]@, other) by {
                            assert(among(keys@, other));
                            let j = choose|j: int|
                                0 <= j < keys@.len() && #[trigger] keys@[j]@ == other;
                            assert(j >= i);
                        }
                    }
                    return Some(keys[i].clone());
                }
            }
            i += 1;
        }
        proof {
            assert forall|other: Seq<char>| !#[trigger] self.holds(other, event_id@) by {
                if self.holds(other, event_id@) {
                    assert(among(keys@, other));
                    let j = choose|j: int| 0 <= j < keys@.len() && #[trigger] keys@[j]@ == other;
                    assert(!self.holds(keys@[j]@, event_id@));
                }
            }
        }
        None
    }

    /// Notes at a given time how an input ended, and hands the event back. An input that no session
    /// waits for changes nothing.
    pub fn finalize_input_at(
        &mut self,
        event_id: &str,
        status: InputEventStatus,
        latency_ms: Option<i64>,
        at: Timestamp,
    ) -> (event: Option<InputEvent>)
        requires
            old(self).wf(),
        ensures
            final(self).wf(),
            match event {
                Some(e) => {
                    let session = e.session_id@;
                    &&& old(self).holds(session, event_id@)
                    &&& forall|other: Seq<char>| #[trigger]
                        old(self).holds(other, event_id@) ==> other == session || text_less(
                            session,
                            other,
                        )
                    &&& e == old(self).pending_of(session)[event_id@].ended(status, at, latency_ms)
                    &&& final(self).same_but(old(self), session)
                    &&& final(self).pending_of(session) == old(self).pending_of(session).remove(
                        event_id@,
                    )
                    &&& final(self).recent_of(session) == remembered(
                        old(self).recent_of(session),
                        e,
                    )
                },
                None => {
                    &&& forall|other: Seq<char>| !#[trigger] old(self).holds(other, event_id@)
                    &&& *final(self) == *old(self)
                },
            },
    {
        match self.holder(event_id) {
            None => None,
            Some(session) => {
                let ghost before = *self;
                match self.sessions.remove(&session) {
                    None => None,
                    Some(mut log) => {
                        assert(Self::log_wf(log, session@));
                        match log.pending.remove(event_id) {
                            None => None,
                            Some(pending) => {
                                let event = InputEvent {
                                    status,
                                    completed_at: Some(at),
                                    latency_ms,
                                    ..pending
                                };
                                if log.recent.len() >= MAX_RECENT {
                                    let _ = log.recent.pop_front();
                                }
                                log.recent.push_back(event.copy());
                                let _ = self.sessions.insert(&session, log);
                                assert(self.recent_of(session@) =~= remembered(
                                    before.recent_of(session@),
                                    event,
                                ));
                                Some(event)
                            },
                        }
                    },
                }
            },
        }
    }

    /// Notes that an input succeeded.
    pub fn complete_input(&mut self, event_id: &str, latency_ms: i64) -> (event: Option<InputEvent>)
        requires
            old(self).wf(),
        ensures
            final(self).wf(),
            final(self).ended_one(old(self), event_id@, event),
            event matches Some(e) ==> e.status == InputEventStatus::Completed && e.latency_ms
                == Some(latency_ms),
    {
        self.finalize_input_at(
            event_id,
            InputEventStatus::Completed,
            Some(latency_ms),
            Timestamp::now(),
        )
    }

    /// Notes that an input failed.
    pub fn fail_input(&mut self, event_id: &str) -> (event: Option<InputEvent>)
        requires
            old(self).wf(),
        ensures
            final(self).wf(),
            final(self).ended_one(old(self), event_id@, event),
            event matches Some(e) ==> e.status == InputEventStatus::Failed && e.latency_ms is None,
    {
        self.finalize_input_at(event_id, InputEventStatus::Failed, None, Timestamp::now())
    }

    /// Whether `self` is `before` after an input has ended as `event`, at whatever time.
    pub open spec fn ended_one(
        &self,
        before: &InputLogBus,
        event_id: Seq<char>,
        event: Option<InputEvent>,
    ) -> bool {
        match event {
            Some(e) => {
                let session = e.session_id@;
                &&& before.holds(session, event_id)
                &&& forall|other: Seq<char>| #[trigger]
                    before.holds(other, event_id) ==> other == session || text_less(
                        session,
                        other,
                    )
                &&& e.completed_at matches Some(at) && at.is_reading() && at.wf() && e == before.pending_of(
                    session,
                )[event_id].ended(e.status, at, e.latency_ms)
                &&& self.same_but(before, session)
                &&& self.pending_of(session) == before.pending_of(session).remove(event_id)
                &&& self.recent_of(session) == remembered(before.recent_of(session), e)
            },
            None => {
                &&& forall|other: Seq<char>| !#[trigger] before.holds(other, event_id)
                &&& *self == *before
            },
        }
    }

    /// The ended inputs of a session that it remembers, oldest first.
    pub fn recent(&self, session_id: &str) -> (events: Vec<InputEvent>)
        requires
            self.wf(),
        ensures
            events@ == self.recent_of(session_id@),
    {
        let mut events: Vec<InputEvent> = Vec::new();
        if let Some(log) = self.sessions.get(session_id) {
            let mut i: usize = 0;
            while i < log.recent.len()
                invariant
                    i <= log.recent@.len(),
                    events@ == log.recent@.take(i as int),
                decreases log.recent.len() - i,
            {
                events.push(log.recent[i].copy());
                i += 1;
                assert(log.recent@.take(i as int) =~= log.recent@.take(i - 1).push(
                    log.recent@[i - 1],
                ));
            }
            assert(log.recent@.take(i as int) =~= log.recent@);
        }
        assert(events@ =~= self.recent_of(session_id@));
        events
    }
}

impl Default for InputLogBus {
    fn default() -> (bus: Self)
        ensures
            bus.wf(),
            forall|session: Seq<char>|
                #![trigger bus.recent_of(session)]
                #![trigger bus.pending_of(session)]
                bus.recent_of(session) == Seq::<InputEvent>::empty() && bus.pending_of(session)
                    == Map::<Seq<char>, InputEvent>::empty(),
    {
        InputLogBus::new()
    }
}

/// An input that has ended is the last that its session remembers, behind those that it remembered
/// before, of which at most the oldest is gone.
pub proof fn law_ended_input_is_remembered(recent: Seq<InputEvent>, event: InputEvent)
    requires
        recent.len() <= MAX_RECENT,
    ensures
        remembered(recent, event).len() <= MAX_RECENT,
        remembered(recent, event).last() == event,
        recent.len() < MAX_RECENT ==> remembered(recent, event).drop_last() == recent,
        recent.len() == MAX_RECENT ==> remembered(recent, event).drop_last()
            == recent.drop_first(),
{
    if recent.len() < MAX_RECENT {
        assert(remembered(recent, event).drop_last() =~= recent);
    } else {
        assert(remembered(recent, event).drop_last() =~= recent.drop_first());
    }
}

/// Of the inputs that have ended the last hundred are remembered, in the order in which they ended:
/// one more pushes out the oldest only where there are a hundred already.
pub proof fn law_last_hundred_are_remembered(recent: Seq<InputEvent>, event: InputEvent, i: int)
    requires
        recent.len() <= 100,
    ensures
        ({
            let after = remembered(recent, event);
            &&& recent.len() < 100 ==> after.len() == recent.len() + 1
            &&& recent.len() < 100 && 0 <= i < recent.len() ==> after[i] == recent[i]
            &&& recent.len() == 100 ==> after.len() == 100
            &&& recent.len() == 100 && 0 < i < recent.len() ==> after[i - 1] == recent[i]
            &&& after[after.len() - 1] == event
        }),
{
}

/// An input that has ended is the one that was noted, with its outcome: nothing else of it changes.
pub proof fn law_ended_input_keeps_its_start(
    event: InputEvent,
    status: InputEventStatus,
    at: Timestamp,
    latency_ms: Option<i64>,
)
    ensures
        ({
            let after = event.ended(status, at, latency_ms);
            &&& after.event_id == event.event_id
            &&& after.session_id == event.session_id
            &&& after.action == event.action
            &&& after.button == event.button
            &&& after.started_at == event.started_at
            &&& after.status == status
            &&& after.completed_at == Some(at)
            &&& after.latency_ms == latency_ms
        }),
{
}

/// An input that has ended is no longer pending and is the last of those that are remembered. No
/// other input is touched. Of sessions that all hold an input under this name the first is meant, and
/// nothing changes where none holds it.
pub proof fn law_input_ends_once(
    before: &InputLogBus,
    after: &InputLogBus,
    event_id: Seq<char>,
    event: Option<InputEvent>,
    session: Seq<char>,
    other: Seq<char>,
)
    requires
        after.ended_one(before, event_id, event),
    ensures
        event is None <==> (forall|s: Seq<char>| !#[trigger] before.holds(s, event_id)),
        event is None ==> *after == *before,
        event is Some && event->0.session_id@ == session ==> {
            let e = event->0;
            let log = after.recent_of(session);
            &&& before.holds(session, event_id)
            &&& !after.holds(session, event_id)
            &&& log.len() > 0 && log[log.len() - 1] == e
            &&& e.completed_at is Some
            &&& e.event_id == before.pending_of(session)[event_id].event_id
            &&& e.action == before.pending_of(session)[event_id].action
            &&& e.button == before.pending_of(session)[event_id].button
            &&& e.started_at == before.pending_of(session)[event_id].started_at
            &&& other != event_id ==> (after.holds(session, other) <==> before.holds(session, other))
            &&& before.holds(other, event_id) && other != session ==> text_less(session, other)
        },
        event is Some && event->0.session_id@ != session ==> after.recent_of(session)
            == before.recent_of(session) && after.pending_of(session) == before.pending_of(session),
{
    if let Some(e) = event {
        assert(before.holds(e.session_id@, event_id));
    }
}

} // verus!
