//! Which command is sent next: the most urgent first, and among equals the oldest.
use crate::ids::{is_random_uuid, new_uuid};
use crate::time::Timestamp;
use std::collections::VecDeque;
use vstd::prelude::*;

verus! {

/// What a command is for.
#[derive(Debug, Clone, Copy, PartialEq, Eq, Structural)]
pub enum CommandKind {
    Control,
    MemoryRead,
    FrameCapture,
    State,
    Health,
}

/// How urgent a command is, the most urgent first.
#[derive(Debug, Clone, Copy, PartialEq, Eq, PartialOrd, Ord, Structural)]
pub enum CommandPriority {
    Control,
    MemoryRead,
    Health,
    State,
    FrameCapture,
}

impl CommandPriority {
    /// The place among the priorities: 0 is the most urgent.
    pub open spec fn rank(self) -> int {
        match self {
            CommandPriority::Control => 0,
            CommandPriority::MemoryRead => 1,
            CommandPriority::Health => 2,
            CommandPriority::State => 3,
            CommandPriority::FrameCapture => 4,
        }
    }

    /// The place among the priorities: 0 is the most urgent.
    pub fn index(self) -> (i: usize)
        ensures
            i == self.rank(),
    {
        match self {
            CommandPriority::Control => 0,
            CommandPriority::MemoryRead => 1,
            CommandPriority::Health => 2,
            CommandPriority::State => 3,
            CommandPriority::FrameCapture => 4,
        }
    }
}

impl CommandKind {
    /// The priority that a command of this kind has if none is given.
    pub open spec fn usual_priority(self) -> CommandPriority {
        match self {
            CommandKind::Control => CommandPriority::Control,
            CommandKind::MemoryRead => CommandPriority::MemoryRead,
            CommandKind::Health => CommandPriority::Health,
            CommandKind::State => CommandPriority::State,
            CommandKind::FrameCapture => CommandPriority::FrameCapture,
        }
    }

    /// The priority that a command of this kind has if none is given.
    pub fn default_priority(self) -> (priority: CommandPriority)
        ensures
            priority == self.usual_priority(),
    {
        match self {
            CommandKind::Control => CommandPriority::Control,
            CommandKind::MemoryRead => CommandPriority::MemoryRead,
            CommandKind::Health => CommandPriority::Health,
            CommandKind::State => CommandPriority::State,
            CommandKind::FrameCapture => CommandPriority::FrameCapture,
        }
    }
}

/// When a command went through which stage.
#[derive(Debug)]
pub struct CommandTrace {
    pub request_id: String,
    pub instance_id: String,
    pub kind: CommandKind,
    pub priority: CommandPriority,
    pub enqueue_at: Timestamp,
    pub dequeue_at: Timestamp,
    pub socket_write_at: Timestamp,
    pub response_at: Timestamp,
    pub caller_complete_at: Timestamp,
}

impl CommandTrace {
    /// Every stage has a time.
    pub open spec fn wf(self) -> bool {
        &&& self.enqueue_at.wf()
        &&& self.dequeue_at.wf()
        &&& self.socket_write_at.wf()
        &&& self.response_at.wf()
        &&& self.caller_complete_at.wf()
    }

    /// Whether every stage has a time.
    pub fn in_range(&self) -> (res: bool)
        ensures
            res == self.wf(),
    {
        self.enqueue_at.in_range() && self.dequeue_at.in_range() && self.socket_write_at.in_range()
            && self.response_at.in_range() && self.caller_complete_at.in_range()
    }

    /// How long the command waited, in milliseconds.
    pub fn queue_wait_ms(&self) -> (ms: i64)
        requires
            self.wf(),
        ensures
            ms == self.enqueue_at.millis_until(self.dequeue_at),
    {
        self.enqueue_at.millis_to(self.dequeue_at)
    }

    /// How long the answer took, in milliseconds.
    pub fn socket_roundtrip_ms(&self) -> (ms: i64)
        requires
            self.wf(),
        ensures
            ms == self.socket_write_at.millis_until(self.response_at),
    {
        self.socket_write_at.millis_to(self.response_at)
    }

    /// How long the caller waited in all, in milliseconds.
    pub fn caller_latency_ms(&self) -> (ms: i64)
        requires
            self.wf(),
        ensures
            ms == self.enqueue_at.millis_until(self.caller_complete_at),
    {
        self.enqueue_at.millis_to(self.caller_complete_at)
    }
}

/// What a command gave.
#[derive(Debug)]
pub struct CommandResult {
    pub response: String,
    pub trace: CommandTrace,
}

/// Why a command gave nothing.
#[derive(Debug, PartialEq, Eq)]
pub enum SchedulerError {
    /// The queue takes no more commands.
    Closed,
    /// The answer took too long.
    Timeout,
    /// The command failed.
    Transport(String),
}

impl SchedulerError {
    /// The error in words.
    pub open spec fn words(self) -> Seq<char> {
        match self {
            SchedulerError::Closed => "scheduler queue is closed"@,
            SchedulerError::Timeout => "mGBA command timed out"@,
            SchedulerError::Transport(why) => "mGBA command failed: "@ + why@,
        }
    }

    /// The error in words.
    pub fn message(&self) -> (text: String)
        ensures
            text@ == self.words(),
    {
        match self {
            SchedulerError::Closed => "scheduler queue is closed".to_owned(),
            SchedulerError::Timeout => "mGBA command timed out".to_owned(),
            SchedulerError::Transport(why) => crate::text::join2("mGBA command failed: ", why),
        }
    }
}

/// A command that waits, with the place `R` where its result goes.
#[derive(Debug)]
#[verifier::reject_recursive_types(R)]
pub struct ScheduledCommand<R> {
    pub request_id: String,
    pub instance_id: String,
    pub kind: CommandKind,
    pub priority: CommandPriority,
    pub message: String,
    pub enqueue_at: Timestamp,
    pub timeout_ms: u64,
    pub reply: R,
}

impl<R> ScheduledCommand<R> {
    /// A command that starts to wait now, under a new name. The instance is not known yet.
    pub fn new(
        kind: CommandKind,
        priority: CommandPriority,
        message: String,
        timeout_ms: u64,
        reply: R,
    ) -> (command: Self)
        ensures
            is_random_uuid(command.request_id@),
            command.instance_id@ == Seq::<char>::empty(),
            command.kind == kind,
            command.priority == priority,
            command.message == message,
            command.enqueue_at.is_reading(),
            command.enqueue_at.wf(),
            command.timeout_ms == timeout_ms,
            command.reply == reply,
    {
        ScheduledCommand {
            request_id: new_uuid(),
            instance_id: String::new(),
            kind,
            priority,
            message,
            enqueue_at: Timestamp::now(),
            timeout_ms,
            reply,
        }
    }
}

/// How sending a command ended.
#[derive(Debug)]
pub enum SendOutcome {
    /// There was an answer.
    Answered(String),
    /// Sending failed.
    Failed(SchedulerError),
    /// There was no answer in time.
    TimedOut,
}

/// The commands that wait for one instance, by priority.
#[derive(Debug)]
#[verifier::reject_recursive_types(R)]
pub struct CommandScheduler<R> {
    instance_id: String,
    capacity: usize,
    control: VecDeque<ScheduledCommand<R>>,
    memory_read: VecDeque<ScheduledCommand<R>>,
    health: VecDeque<ScheduledCommand<R>>,
    state: VecDeque<ScheduledCommand<R>>,
    frame_capture: VecDeque<ScheduledCommand<R>>,
}

/// How many commands may be under way to the queues.
pub fn channel_capacity(capacity_per_priority: usize) -> (n: usize)
    ensures
        n == if capacity_per_priority == 0 {
            1
        } else if capacity_per_priority * 5 > usize::MAX {
            usize::MAX as int
        } else {
            capacity_per_priority * 5
        },
{
    if capacity_per_priority == 0 {
        1
    } else if capacity_per_priority > usize::MAX / 5 {
        usize::MAX
    } else {
        capacity_per_priority * 5
    }
}

impl<R> CommandScheduler<R> {
    /// The waiting commands of a priority, oldest first.
    pub closed spec fn queue(&self, priority: CommandPriority) -> Seq<ScheduledCommand<R>> {
        match priority {
            CommandPriority::Control => self.control@,
            CommandPriority::MemoryRead => self.memory_read@,
            CommandPriority::Health => self.health@,
            CommandPriority::State => self.state@,
            CommandPriority::FrameCapture => self.frame_capture@,
        }
    }

    /// How many commands of one priority may wait.
    pub closed spec fn capacity(&self) -> usize {
        self.capacity
    }

    /// The instance that the commands are for.
    pub closed spec fn instance(&self) -> String {
        self.instance_id
    }

    /// No queue is too long, and each command waits in its own.
    pub open spec fn wf(&self) -> bool {
        &&& self.capacity() > 0
        &&& forall|p: CommandPriority| #[trigger] self.queue(p).len() <= self.capacity()
        &&& forall|p: CommandPriority, i: int|
            0 <= i < self.queue(p).len() ==> (#[trigger] self.queue(p)[i]).priority == p
                && self.queue(p)[i].instance_id == self.instance()
    }

    /// Whether all queues but one are as they were.
    pub open spec fn same_but(&self, before: &Self, priority: CommandPriority) -> bool {
        &&& self.capacity() == before.capacity()
        &&& self.instance() == before.instance()
        &&& forall|p: CommandPriority|
            p != priority ==> #[trigger] self.queue(p) == before.queue(p)
    }

    /// The command that is sent next: the oldest of the most urgent ones.
    pub open spec fn up_next(&self) -> Option<ScheduledCommand<R>> {
        if self.queue(CommandPriority::Control).len() > 0 {
            Some(self.queue(CommandPriority::Control)[0])
        } else if self.queue(CommandPriority::MemoryRead).len() > 0 {
            Some(self.queue(CommandPriority::MemoryRead)[0])
        } else if self.queue(CommandPriority::Health).len() > 0 {
            Some(self.queue(CommandPriority::Health)[0])
        } else if self.queue(CommandPriority::State).len() > 0 {
            Some(self.queue(CommandPriority::State)[0])
        } else if self.queue(CommandPriority::FrameCapture).len() > 0 {
            Some(self.queue(CommandPriority::FrameCapture)[0])
        } else {
            None
        }
    }

    /// Nothing that waits is more urgent than the command that is sent next, and nothing as urgent
    /// has waited longer.
    pub proof fn law_most_urgent_and_oldest_first(&self, priority: CommandPriority, i: int)
        requires
            self.wf(),
            0 <= i < self.queue(priority).len(),
        ensures
            self.up_next() matches Some(next) && next.priority.rank() <= priority.rank() && (
            next.priority == priority ==> next == self.queue(priority)[0]),
    {
        assert(forall|p: CommandPriority|
            0 < self.queue(p).len() ==> (#[trigger] self.queue(p)[0]).priority == p);
        let next = self.up_next()->0;
        assert(self.queue(next.priority)[0].priority == next.priority);
    }

    /// Control goes before reads of memory, those before checks of health, those before saved states
    /// and those before pictures: the next command is the oldest of the first of these queues that
    /// is not empty.
    pub proof fn law_order_of_the_queues(&self)
        ensures
            ({
                let control = self.queue(CommandPriority::Control);
                let memory = self.queue(CommandPriority::MemoryRead);
                let health = self.queue(CommandPriority::Health);
                let state = self.queue(CommandPriority::State);
                let picture = self.queue(CommandPriority::FrameCapture);
                &&& control.len() > 0 ==> self.up_next() == Some(control[0])
                &&& control.len() == 0 && memory.len() > 0 ==> self.up_next() == Some(memory[0])
                &&& control.len() == 0 && memory.len() == 0 && health.len() > 0 ==> self.up_next()
                    == Some(health[0])
                &&& control.len() == 0 && memory.len() == 0 && health.len() == 0 && state.len() > 0
                    ==> self.up_next() == Some(state[0])
                &&& control.len() == 0 && memory.len() == 0 && health.len() == 0 && state.len() == 0
                    && picture.len() > 0 ==> self.up_next() == Some(picture[0])
                &&& self.up_next() is None <==> control.len() == 0 && memory.len() == 0
                    && health.len() == 0 && state.len() == 0 && picture.len() == 0
            }),
    {
    }

    /// Queues for an instance. A capacity of zero counts as one.
    pub fn new(instance_id: String, capacity_per_priority: usize) -> (scheduler: Self)
        ensures
            scheduler.wf(),
            scheduler.instance() == instance_id,
            scheduler.capacity() == if capacity_per_priority == 0 {
                1
            } else {
                capacity_per_priority
            },
            forall|p: CommandPriority| #[trigger]
                scheduler.queue(p) == Seq::<ScheduledCommand<R>>::empty(),
    {
        let capacity: usize = if capacity_per_priority == 0 {
            1
        } else {
            capacity_per_priority
        };
        CommandScheduler {
            instance_id,
            capacity,
            control: VecDeque::new(),
            memory_read: VecDeque::new(),
            health: VecDeque::new(),
            state: VecDeque::new(),
            frame_capture: VecDeque::new(),
        }
    }

    /// A command that has come in, with the instance that it is for.
    pub fn adopt(&self, command: ScheduledCommand<R>) -> (adopted: ScheduledCommand<R>)
        ensures
            adopted == (ScheduledCommand { instance_id: self.instance(), ..command }),
    {
        ScheduledCommand { instance_id: self.instance_id.clone(), ..command }
    }

    fn queue_mut(&mut self, priority: CommandPriority) -> (queue: &mut VecDeque<
        ScheduledCommand<R>,
    >)
        ensures
            queue@ == old(self).queue(priority),
            final(self).queue(priority) == final(queue)@,
            final(self).same_but(old(self), priority),
    {
        match priority {
            CommandPriority::Control => &mut self.control,
            CommandPriority::MemoryRead => &mut self.memory_read,
            CommandPriority::Health => &mut self.health,
            CommandPriority::State => &mut self.state,
            CommandPriority::FrameCapture => &mut self.frame_capture,
        }
    }

    /// Puts a command at the end of its queue. A full queue refuses it: the place for its result is
    /// handed back, with the error that goes there.
    pub fn enqueue(&mut self, command: ScheduledCommand<R>) -> (refused: Option<
        (R, SchedulerError),
    >)
        requires
            old(self).wf(),
        ensures
            final(self).wf(),
            final(self).same_but(old(self), command.priority),
            ({
                let before = old(self).queue(command.priority);
                let after = final(self).queue(command.priority);
                if before.len() >= old(self).capacity() {
                    refused == Some((command.reply, SchedulerError::Closed)) && after == before
                } else {
                    refused is None && after == before.push(
                        ScheduledCommand { instance_id: old(self).instance(), ..command },
                    )
                }
            }),
    {
        let ghost before = *self;
        let capacity: usize = self.capacity;
        let command = self.adopt(command);
        let ghost priority = command.priority;
        let queue = self.queue_mut(command.priority);
        let refused = if queue.len() >= capacity {
            Some((command.reply, SchedulerError::Closed))
        } else {
            queue.push_back(command);
            None
        };
        proof {
            assert forall|p: CommandPriority| #[trigger] self.queue(p).len()
                <= self.capacity() by {
                if p != priority {
                    assert(self.queue(p) == before.queue(p));
                }
            }
            assert forall|p: CommandPriority, i: int| 0 <= i < self.queue(p).len() implies (
            #[trigger] self.queue(p)[i]).priority == p && self.queue(p)[i].instance_id
                == self.instance() by {
                if p != priority || i < before.queue(p).len() {
                    assert(self.queue(p)[i] == before.queue(p)[i]);
                }
            }
        }
        refused
    }

    /// Takes the next command: the oldest of the most urgent ones.
    pub fn pop_next(&mut self) -> (next: Option<ScheduledCommand<R>>)
        requires
            old(self).wf(),
        ensures
            final(self).wf(),
            next == old(self).up_next(),
            match next {
                Some(command) => {
                    &&& final(self).queue(command.priority) == old(self).queue(
                        command.priority,
                    ).drop_first()
                    &&& final(self).same_but(old(self), command.priority)
                },
                None => *final(self) == *old(self),
            },
    {
        if self.control.len() > 0 {
            self.pop_from(CommandPriority::Control)
        } else if self.memory_read.len() > 0 {
            self.pop_from(CommandPriority::MemoryRead)
        } else if self.health.len() > 0 {
            self.pop_from(CommandPriority::Health)
        } else if self.state.len() > 0 {
            self.pop_from(CommandPriority::State)
        } else if self.frame_capture.len() > 0 {
            self.pop_from(CommandPriority::FrameCapture)
        } else {
            None
        }
    }

    fn pop_from(&mut self, priority: CommandPriority) -> (next: Option<ScheduledCommand<R>>)
        requires
            old(self).wf(),
            old(self).queue(priority).len() > 0,
        ensures
            final(self).wf(),
            next == Some(old(self).queue(priority)[0]),
            next->0.priority == priority,
            final(self).queue(priority) == old(self).queue(priority).drop_first(),
            final(self).same_but(old(self), priority),
    {
        let ghost before = *self;
        let next = self.queue_mut(priority).pop_front();
        proof {
            assert(before.queue(priority)[0].priority == priority);
            assert(self.queue(priority) =~= before.queue(priority).drop_first());
            assert forall|p: CommandPriority| #[trigger] self.queue(p).len()
                <= self.capacity() by {
                assert(before.queue(p).len() <= before.capacity());
            }
            assert forall|p: CommandPriority, i: int| 0 <= i < self.queue(p).len() implies (
            #[trigger] self.queue(p)[i]).priority == p && self.queue(p)[i].instance_id
                == self.instance() by {
                let j = if p == priority {
                    i + 1
                } else {
                    i
                };
                assert(self.queue(p)[i] == before.queue(p)[j]);
            }
        }
        next
    }
}

/// The result of a command, and the place where it goes.
pub fn finish_command<R>(
    command: ScheduledCommand<R>,
    outcome: SendOutcome,
    dequeue_at: Timestamp,
    socket_write_at: Timestamp,
    response_at: Timestamp,
    caller_complete_at: Timestamp,
) -> (res: (R, Result<CommandResult, SchedulerError>))
    ensures
        res.0 == command.reply,
        match outcome {
            SendOutcome::Answered(response) => res.1 == Ok::<CommandResult, SchedulerError>(
                CommandResult {
                    response,
                    trace: CommandTrace {
                        request_id: command.request_id,
                        instance_id: command.instance_id,
                        kind: command.kind,
                        priority: command.priority,
                        enqueue_at: command.enqueue_at,
                        dequeue_at,
                        socket_write_at,
                        response_at,
                        caller_complete_at,
                    },
                },
            ),
            SendOutcome::Failed(error) => res.1 == Err::<CommandResult, SchedulerError>(error),
            SendOutcome::TimedOut => res.1 == Err::<CommandResult, SchedulerError>(
                SchedulerError::Timeout,
            ),
        },
{
    let result = match outcome {
        SendOutcome::Answered(response) => Ok(
            CommandResult {
                response,
                trace: CommandTrace {
                    request_id: command.request_id,
                    instance_id: command.instance_id,
                    kind: command.kind,
                    priority: command.priority,
                    enqueue_at: command.enqueue_at,
                    dequeue_at,
                    socket_write_at,
                    response_at,
                    caller_complete_at,
                },
            },
        ),
        SendOutcome::Failed(error) => Err(error),
        SendOutcome::TimedOut => Err(SchedulerError::Timeout),
    };
    (command.reply, result)
}

/// Every kind of command has a priority of its own, named after it, and the priorities are ranked
/// from 0 for control to 4 for pictures.
pub proof fn law_kinds_have_their_priorities(a: CommandKind, b: CommandKind)
    ensures
        a.usual_priority() == b.usual_priority() <==> a == b,
        a is Control <==> a.usual_priority().rank() == 0,
        a is MemoryRead <==> a.usual_priority().rank() == 1,
        a is Health <==> a.usual_priority().rank() == 2,
        a is State <==> a.usual_priority().rank() == 3,
        a is FrameCapture <==> a.usual_priority().rank() == 4,
{
}

/// What each error says.
pub proof fn law_errors_in_words(error: SchedulerError)
    ensures
        match error {
            SchedulerError::Closed => error.words() == "scheduler queue is closed"@,
            SchedulerError::Timeout => error.words() == "mGBA command timed out"@,
            SchedulerError::Transport(why) => error.words() == "mGBA command failed: "@ + why@,
        },
{
}

/// What happens to one queue leaves the others as they were.
pub proof fn law_other_queues_are_left<R>(
    before: &CommandScheduler<R>,
    after: &CommandScheduler<R>,
    priority: CommandPriority,
    other: CommandPriority,
)
    requires
        after.same_but(before, priority),
        other != priority,
    ensures
        after.queue(other) == before.queue(other),
        after.capacity() == before.capacity(),
        after.instance() == before.instance(),
{
}

} // verus!
