use mgba_gateway::ipc::{WorkerResponse, WorkerResponseV1};
use mgba_gateway::mgba::ipc_transport::{CallOutcome, finish_call, plan_call};
use mgba_gateway::mgba::scheduler::{
    ScheduledCommand, SendOutcome, channel_capacity, finish_command,
};
use mgba_gateway::mgba::{
    CommandKind, CommandPriority, CommandScheduler, CommandTrace, SchedulerError,
};
use mgba_gateway::time::Timestamp;

fn command(kind: CommandKind, message: &str, reply: u32) -> ScheduledCommand<u32> {
    ScheduledCommand::new(kind, kind.default_priority(), message.to_string(), 1000, reply)
}

#[test]
fn prioritizes_control_and_memory_over_frame_capture_when_pending() {
    let mut scheduler = CommandScheduler::new("instance-a".to_string(), 16);
    let first = scheduler.adopt(command(CommandKind::FrameCapture, "frame-1", 1));
    assert!(scheduler.enqueue(command(CommandKind::FrameCapture, "frame-2", 2)).is_none());
    assert!(scheduler.enqueue(command(CommandKind::MemoryRead, "read", 3)).is_none());
    assert!(scheduler.enqueue(command(CommandKind::Control, "tap", 4)).is_none());
    let mut seen = vec![first.message];
    while let Some(next) = scheduler.pop_next() {
        assert_eq!(next.instance_id, "instance-a");
        seen.push(next.message);
    }
    assert_eq!(seen[0], "frame-1");
    assert_eq!(seen[1], "tap");
    assert_eq!(seen[2], "read");
    assert_eq!(seen[3], "frame-2");
}

#[test]
fn equals_wait_in_order_and_full_queues_refuse() {
    let mut scheduler = CommandScheduler::new("a".to_string(), 2);
    for (i, kind) in [CommandKind::State, CommandKind::Health, CommandKind::State]
        .into_iter()
        .enumerate()
    {
        assert!(scheduler.enqueue(command(kind, &i.to_string(), i as u32)).is_none());
    }
    assert_eq!(
        scheduler.enqueue(command(CommandKind::State, "3", 3)),
        Some((3, SchedulerError::Closed))
    );
    let order: Vec<String> =
        std::iter::from_fn(|| scheduler.pop_next()).map(|c| c.message).collect();
    assert_eq!(order, ["1", "0", "2"]);
}

#[test]
fn a_capacity_of_zero_counts_as_one() {
    let mut scheduler = CommandScheduler::new("a".to_string(), 0);
    assert!(scheduler.enqueue(command(CommandKind::Control, "x", 0)).is_none());
    assert!(scheduler.enqueue(command(CommandKind::Control, "y", 0)).is_some());
    assert_eq!(channel_capacity(0), 1);
    assert_eq!(channel_capacity(16), 80);
    assert_eq!(channel_capacity(usize::MAX), usize::MAX);
}

#[test]
fn priorities_are_ranked() {
    let ranked = [
        (CommandKind::Control, CommandPriority::Control),
        (CommandKind::MemoryRead, CommandPriority::MemoryRead),
        (CommandKind::Health, CommandPriority::Health),
        (CommandKind::State, CommandPriority::State),
        (CommandKind::FrameCapture, CommandPriority::FrameCapture),
    ];
    for (i, (kind, priority)) in ranked.into_iter().enumerate() {
        assert_eq!(kind.default_priority(), priority);
        assert_eq!(priority.index(), i);
    }
    assert!(CommandPriority::Control < CommandPriority::FrameCapture);
}

fn at(secs: i64, nanos: u32) -> Timestamp {
    Timestamp { secs, nanos }
}

#[test]
fn results_carry_their_trace() {
    let scheduler = CommandScheduler::new("instance-a".to_string(), 1);
    let waiting = scheduler.adopt(command(CommandKind::Control, "tap", 7));
    let request_id = waiting.request_id.clone();
    assert_eq!(request_id.len(), 36);
    let (reply, result) = finish_command(
        waiting,
        SendOutcome::Answered("ok".to_string()),
        at(10, 0),
        at(10, 1),
        at(11, 0),
        at(12, 0),
    );
    assert_eq!(reply, 7);
    let result = result.unwrap();
    assert_eq!(result.response, "ok");
    assert_eq!(result.trace.request_id, request_id);
    assert_eq!(result.trace.instance_id, "instance-a");
    assert!(result.trace.in_range());
    let times = [at(0, 0), at(10_000_000_000_000, 999_999_999)];
    assert!(times.iter().all(|t| t.in_range()));
    assert!(!at(-1, 0).in_range() && !at(0, 1_000_000_000).in_range());
    assert_eq!(result.trace.socket_roundtrip_ms(), 999);
    let failed = SendOutcome::Failed(SchedulerError::Transport("gone".to_string()));
    let times = [at(0, 0); 4];
    let (_, result) = finish_command(
        command(CommandKind::Control, "tap", 7),
        failed,
        times[0],
        times[1],
        times[2],
        times[3],
    );
    assert_eq!(result.unwrap_err().message(), "mGBA command failed: gone");
    let (_, result) = finish_command(
        command(CommandKind::Control, "tap", 7),
        SendOutcome::TimedOut,
        times[0],
        times[1],
        times[2],
        times[3],
    );
    assert_eq!(result.unwrap_err().message(), "mGBA command timed out");
    assert_eq!(SchedulerError::Closed.message(), "scheduler queue is closed");
}

#[test]
fn latencies_match_chrono() {
    let times = [at(5, 999_999_999), at(6, 0), at(6, 1_000_000), at(5, 500_000), at(100, 1)];
    for a in times {
        for b in times {
            let trace = CommandTrace {
                request_id: String::new(),
                instance_id: String::new(),
                kind: CommandKind::Control,
                priority: CommandPriority::Control,
                enqueue_at: a,
                dequeue_at: b,
                socket_write_at: a,
                response_at: b,
                caller_complete_at: b,
            };
            let from = chrono::DateTime::from_timestamp(a.secs, a.nanos).unwrap();
            let to = chrono::DateTime::from_timestamp(b.secs, b.nanos).unwrap();
            let expected = (to - from).num_milliseconds();
            assert_eq!(trace.queue_wait_ms(), expected);
            assert_eq!(trace.socket_roundtrip_ms(), expected);
            assert_eq!(trace.caller_latency_ms(), expected);
        }
    }
}

#[test]
fn calls_are_planned_and_finished() {
    assert!(plan_call("health<|END|>").is_ok());
    assert_eq!(
        plan_call("nonsense"),
        Err(SchedulerError::Transport("unknown command: nonsense".to_string()))
    );
    let answer = WorkerResponse::V1(WorkerResponseV1::Pong);
    assert_eq!(
        finish_call(CallOutcome::Answered(answer)),
        Ok("pong<|SUCCESS|>".to_string())
    );
    assert_eq!(
        finish_call(CallOutcome::Failed("closed".to_string())),
        Err(SchedulerError::Transport("closed".to_string()))
    );
    assert_eq!(finish_call(CallOutcome::TimedOut), Err(SchedulerError::Timeout));
}
