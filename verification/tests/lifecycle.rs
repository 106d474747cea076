use tracking_client::connection::ConnError;
use tracking_client::lane::{Failure, Lane, LogKind, LogOutcome, RunError};
use tracking_client::launcher::LaunchError;
use tracking_client::queue::{QueueError, RunQueue};
use tracking_client::record::{Record, RecordKind};
use tracking_client::run::{RunEvent, RunState};
use tracking_client::settings::OverflowPolicy;

const STATES: [RunState; 6] = [
    RunState::Created,
    RunState::Starting,
    RunState::Active,
    RunState::Finishing,
    RunState::Finished,
    RunState::Failed,
];

const EVENTS: [RunEvent; 5] =
    [RunEvent::Open, RunEvent::OpenQueued, RunEvent::Finish, RunEvent::Drained, RunEvent::Fault];

fn active_lane(capacity: usize, overflow: OverflowPolicy) -> Lane {
    let mut lane = Lane::new(5, capacity, overflow);
    lane.start();
    lane.activate();
    lane
}

fn drain(lane: &mut Lane) -> Vec<Record> {
    let mut out: Vec<Record> = Vec::new();
    loop {
        let next = match lane.head() {
            Some(r) => r.duplicate(),
            None => break,
        };
        out.push(next);
        lane.mark_sent();
    }
    out
}

#[test]
fn normal_life_passes_every_state_in_order() {
    let mut s = RunState::Created;
    let mut seen = vec![s];
    for e in [RunEvent::Open, RunEvent::OpenQueued, RunEvent::Finish, RunEvent::Drained] {
        s = s.apply(e).unwrap();
        seen.push(s);
    }
    assert_eq!(
        seen,
        vec![
            RunState::Created,
            RunState::Starting,
            RunState::Active,
            RunState::Finishing,
            RunState::Finished
        ]
    );
}

#[test]
fn no_event_skips_a_state() {
    let order = [
        RunState::Created,
        RunState::Starting,
        RunState::Active,
        RunState::Finishing,
        RunState::Finished,
    ];
    for (i, s) in order.iter().enumerate() {
        for e in EVENTS {
            match s.apply(e) {
                None => {}
                Some(RunState::Failed) => assert_eq!(e, RunEvent::Fault),
                Some(next) => assert_eq!(next, order[i + 1]),
            }
        }
    }
}

#[test]
fn terminal_states_are_never_left() {
    for e in EVENTS {
        assert_eq!(RunState::Finished.apply(e), None);
        assert_eq!(RunState::Failed.apply(e), None);
    }
    assert!(RunState::Finished.is_terminal());
    assert!(RunState::Failed.is_terminal());
    for s in &STATES[..4] {
        assert!(!s.is_terminal());
        assert_eq!(s.apply(RunEvent::Fault), Some(RunState::Failed));
    }
}

#[test]
fn log_only_in_active_config_in_starting_too() {
    for s in STATES {
        assert_eq!(s.accepts_log(), s == RunState::Active);
        assert_eq!(s.accepts_config(), s == RunState::Starting || s == RunState::Active);
    }
}

#[test]
fn queue_numbers_records_in_order() {
    let mut q = RunQueue::new(9, 8);
    assert_eq!(q.enqueue(RecordKind::MetricPoint, b"a"), Ok(0));
    assert_eq!(q.enqueue(RecordKind::Summary, b"b"), Ok(1));
    assert_eq!(q.enqueue(RecordKind::ConfigUpdate, b"c"), Ok(2));
    assert_eq!(q.accepted(), 3);
    assert_eq!(q.unsent_len(), 3);
    assert_eq!(q.pending_len(), 3);
    assert_eq!(q.run_id(), 9);
    assert_eq!(q.capacity(), 8);
    let unsent = q.unsent_records();
    assert_eq!(unsent.len(), 3);
    for (i, r) in unsent.iter().enumerate() {
        assert_eq!(r.seq, i as u64);
        assert_eq!(r.run_id, 9);
    }
    assert_eq!(unsent[0].payload, b"a".to_vec());
    assert_eq!(unsent[1].kind, RecordKind::Summary);
    assert_eq!(unsent[2].payload, b"c".to_vec());
}

#[test]
fn queue_hands_out_records_oldest_first() {
    let mut q = RunQueue::new(1, 8);
    for p in [b"x", b"y", b"z"] {
        q.enqueue(RecordKind::MetricPoint, p).unwrap();
    }
    let mut got: Vec<Vec<u8>> = Vec::new();
    while let Some(r) = q.head() {
        got.push(r.payload.clone());
        assert!(q.mark_sent());
    }
    assert_eq!(got, vec![b"x".to_vec(), b"y".to_vec(), b"z".to_vec()]);
    assert!(!q.mark_sent());
    assert!(q.is_drained());
    assert_eq!(q.wired(), 3);
    assert_eq!(q.pending_len(), 3);
}

#[test]
fn queue_bound_counts_caller_records_only() {
    let mut q = RunQueue::new(1, 2);
    assert_eq!(q.enqueue(RecordKind::Telemetry, b""), Ok(0));
    assert_eq!(q.enqueue(RecordKind::MetricPoint, b"1"), Ok(1));
    assert_eq!(q.enqueue(RecordKind::MetricPoint, b"2"), Ok(2));
    assert_eq!(q.enqueue(RecordKind::MetricPoint, b"3"), Err(QueueError::Full));
    assert_eq!(q.enqueue(RecordKind::RunExit, b"bye"), Ok(3));
    assert_eq!(q.accepted(), 4);
}

#[test]
fn queue_of_capacity_zero_takes_no_caller_record() {
    let mut q = RunQueue::new(1, 0);
    assert_eq!(q.enqueue(RecordKind::Summary, b"s"), Err(QueueError::Full));
    assert_eq!(q.enqueue(RecordKind::Telemetry, b""), Ok(0));
}

#[test]
fn acknowledgement_moves_the_watermark_and_frees_room() {
    let mut q = RunQueue::new(1, 2);
    q.enqueue(RecordKind::MetricPoint, b"1").unwrap();
    q.enqueue(RecordKind::MetricPoint, b"2").unwrap();
    assert_eq!(q.enqueue(RecordKind::MetricPoint, b"3"), Err(QueueError::Full));
    assert_eq!(q.acknowledge(0), 0);
    assert_eq!(q.acked(), 0);
    q.mark_sent();
    assert_eq!(q.acknowledge(1), 0);
    assert_eq!(q.acknowledge(0), 1);
    assert_eq!(q.acked(), 1);
    assert_eq!(q.pending_len(), 1);
    assert_eq!(q.acknowledge(0), 0);
    assert_eq!(q.enqueue(RecordKind::MetricPoint, b"3"), Ok(2));
    q.mark_sent();
    q.mark_sent();
    assert_eq!(q.acknowledge(2), 2);
    assert_eq!(q.acked(), 3);
    assert_eq!(q.pending_len(), 0);
    assert_eq!(q.wired(), 3);
    assert!(q.is_drained());
}

#[test]
fn dropped_records_are_counted() {
    let mut q = RunQueue::new(1, 1);
    assert_eq!(q.dropped(), 0);
    q.note_dropped();
    q.note_dropped();
    assert_eq!(q.dropped(), 2);
}

#[test]
fn lane_opens_through_starting_to_active() {
    let mut lane = Lane::new(5, 4, OverflowPolicy::Drop);
    assert_eq!(lane.state(), RunState::Created);
    assert_eq!(lane.id(), 5);
    assert_eq!(lane.log(LogKind::Metric, b"m", 0), Err(RunError::InvalidState(RunState::Created)));
    assert_eq!(lane.finish(0, 0, 10), Err(RunError::InvalidState(RunState::Created)));
    lane.start();
    assert_eq!(lane.state(), RunState::Starting);
    assert_eq!(lane.log(LogKind::Metric, b"m", 0), Err(RunError::InvalidState(RunState::Starting)));
    assert_eq!(lane.update_config(b"c", 0), Ok(LogOutcome::Queued { seq: 0 }));
    lane.activate();
    assert_eq!(lane.state(), RunState::Active);
    assert_eq!(lane.trace(), vec![RunState::Created, RunState::Starting, RunState::Active]);
    let sent = drain(&mut lane);
    assert_eq!(sent.len(), 2);
    assert_eq!(sent[0].kind, RecordKind::ConfigUpdate);
    assert_eq!(sent[1].kind, RecordKind::Telemetry);
    assert_eq!(sent[1].seq, 1);
    assert!(sent[1].payload.is_empty());
}

#[test]
fn log_queues_metric_and_summary_records() {
    let mut lane = active_lane(4, OverflowPolicy::Drop);
    assert_eq!(lane.log(LogKind::Metric, b"m", 0), Ok(LogOutcome::Queued { seq: 1 }));
    assert_eq!(lane.log(LogKind::Summary, b"s", 0), Ok(LogOutcome::Queued { seq: 2 }));
    assert_eq!(lane.update_config(b"c", 0), Ok(LogOutcome::Queued { seq: 3 }));
    assert_eq!(LogKind::Metric.record_kind(), RecordKind::MetricPoint);
    assert_eq!(LogKind::Summary.record_kind(), RecordKind::Summary);
    let sent = drain(&mut lane);
    let kinds: Vec<RecordKind> = sent.iter().map(|r| r.kind).collect();
    assert_eq!(
        kinds,
        vec![
            RecordKind::Telemetry,
            RecordKind::MetricPoint,
            RecordKind::Summary,
            RecordKind::ConfigUpdate
        ]
    );
    assert_eq!(lane.state(), RunState::Active);
}

#[test]
fn records_leave_in_the_order_they_were_logged() {
    let mut lane = active_lane(1000, OverflowPolicy::Drop);
    let mut wire: Vec<Record> = Vec::new();
    for i in 0..200u32 {
        let payload = i.to_be_bytes();
        assert_eq!(lane.log(LogKind::Metric, &payload, 0), Ok(LogOutcome::Queued { seq: i as u64 + 1 }));
        if i % 3 == 0 {
            if let Some(r) = lane.head() {
                wire.push(r.duplicate());
            }
            lane.mark_sent();
        }
        if i % 7 == 0 {
            lane.acknowledge(i as u64 / 7);
        }
    }
    wire.extend(drain(&mut lane));
    assert_eq!(wire.len(), 201);
    for (i, r) in wire.iter().enumerate() {
        assert_eq!(r.seq, i as u64);
        if i > 0 {
            assert_eq!(r.payload, ((i - 1) as u32).to_be_bytes().to_vec());
        }
    }
}

#[test]
fn full_queue_with_drop_policy_discards_and_counts() {
    let mut lane = active_lane(1, OverflowPolicy::Drop);
    assert_eq!(lane.log(LogKind::Metric, b"1", 0), Ok(LogOutcome::Queued { seq: 1 }));
    assert_eq!(lane.log(LogKind::Metric, b"2", 0), Ok(LogOutcome::Dropped));
    assert_eq!(lane.log(LogKind::Metric, b"3", 0), Ok(LogOutcome::Dropped));
    assert_eq!(lane.queue().dropped(), 2);
    assert_eq!(lane.queue().accepted(), 2);
    assert_eq!(lane.state(), RunState::Active);
}

#[test]
fn full_queue_with_block_policy_waits_then_overflows() {
    let mut lane = active_lane(1, OverflowPolicy::Block { timeout_ms: 50 });
    assert_eq!(lane.log(LogKind::Metric, b"1", 0), Ok(LogOutcome::Queued { seq: 1 }));
    assert_eq!(lane.log(LogKind::Metric, b"2", 0), Ok(LogOutcome::Wait { remaining_ms: 50 }));
    assert_eq!(lane.log(LogKind::Metric, b"2", 20), Ok(LogOutcome::Wait { remaining_ms: 30 }));
    assert_eq!(lane.log(LogKind::Metric, b"2", 49), Ok(LogOutcome::Wait { remaining_ms: 1 }));
    assert_eq!(lane.log(LogKind::Metric, b"2", 50), Err(RunError::QueueOverflow));
    assert_eq!(lane.log(LogKind::Metric, b"2", 51), Err(RunError::QueueOverflow));
    assert_eq!(lane.queue().accepted(), 2);
    assert_eq!(lane.queue().dropped(), 0);
    assert_eq!(lane.state(), RunState::Active);
}

#[test]
fn blocked_log_goes_through_once_there_is_room() {
    let mut lane = active_lane(1, OverflowPolicy::Block { timeout_ms: 50 });
    lane.log(LogKind::Metric, b"1", 0).unwrap();
    assert_eq!(lane.log(LogKind::Metric, b"2", 0), Ok(LogOutcome::Wait { remaining_ms: 50 }));
    lane.mark_sent();
    lane.mark_sent();
    lane.acknowledge(1);
    assert_eq!(lane.log(LogKind::Metric, b"2", 10), Ok(LogOutcome::Queued { seq: 2 }));
}

#[test]
fn finish_queues_one_exit_record_and_ends_when_drained() {
    let mut lane = active_lane(4, OverflowPolicy::Drop);
    lane.log(LogKind::Metric, b"m", 0).unwrap();
    assert_eq!(lane.finish(3, 1000, 2000), Ok(RunState::Finishing));
    assert_eq!(lane.log(LogKind::Metric, b"late", 0), Err(RunError::InvalidState(RunState::Finishing)));
    assert_eq!(lane.update_config(b"late", 0), Err(RunError::InvalidState(RunState::Finishing)));
    let sent = drain(&mut lane);
    assert_eq!(sent.len(), 3);
    assert_eq!(sent[2].kind, RecordKind::RunExit);
    assert_eq!(sent[2].exit_info(), Some((3, 1000)));
    assert_eq!(lane.state(), RunState::Finished);
    assert_eq!(
        lane.trace(),
        vec![
            RunState::Created,
            RunState::Starting,
            RunState::Active,
            RunState::Finishing,
            RunState::Finished
        ]
    );
    assert_eq!(lane.cause(), None);
    assert_eq!(lane.log(LogKind::Metric, b"late", 0), Err(RunError::InvalidState(RunState::Finished)));
}

#[test]
fn run_is_finishing_until_its_last_record_is_written() {
    let mut lane = active_lane(4, OverflowPolicy::Drop);
    lane.finish(0, 1, 100).unwrap();
    assert!(lane.is_ready());
    lane.mark_sent();
    assert_eq!(lane.state(), RunState::Finishing);
    lane.mark_sent();
    assert_eq!(lane.state(), RunState::Finished);
    assert!(!lane.is_ready());
    lane.mark_sent();
    assert_eq!(lane.state(), RunState::Finished);
}

#[test]
fn finish_twice_gives_the_same_state_and_one_exit_record() {
    let mut lane = active_lane(4, OverflowPolicy::Drop);
    assert_eq!(lane.finish(0, 10, 100), Ok(RunState::Finishing));
    assert_eq!(lane.finish(9, 20, 100), Ok(RunState::Finishing));
    assert_eq!(lane.queue().accepted(), 2);
    let sent = drain(&mut lane);
    let exits: Vec<&Record> = sent.iter().filter(|r| r.kind == RecordKind::RunExit).collect();
    assert_eq!(exits.len(), 1);
    assert_eq!(exits[0].exit_info(), Some((0, 10)));
    assert_eq!(lane.finish(0, 30, 100), Ok(RunState::Finished));
    assert_eq!(lane.finish(7, 500, 100), Ok(RunState::Finished));
    assert_eq!(lane.queue().accepted(), 2);
    assert_eq!(lane.trace().len(), 5);
}

#[test]
fn finish_past_its_deadline_gives_the_run_up() {
    let mut lane = active_lane(4, OverflowPolicy::Drop);
    assert_eq!(lane.finish(0, 10, 100), Ok(RunState::Finishing));
    assert_eq!(lane.finish(0, 99, 100), Ok(RunState::Finishing));
    assert_eq!(lane.finish(0, 100, 100), Ok(RunState::Failed));
    assert_eq!(lane.cause(), Some(Failure::FinishTimeout));
    assert_eq!(lane.finish(0, 200, 300), Ok(RunState::Failed));
    assert_eq!(lane.queue().unsent_len(), 2);
    assert!(!lane.is_ready());
    assert_eq!(lane.head(), None);
    assert_eq!(lane.log(LogKind::Metric, b"m", 0), Err(RunError::InvalidState(RunState::Failed)));
    assert_eq!(
        lane.trace(),
        vec![
            RunState::Created,
            RunState::Starting,
            RunState::Active,
            RunState::Finishing,
            RunState::Failed
        ]
    );
}

#[test]
fn finish_at_its_deadline_still_queues_the_exit_record() {
    let mut lane = active_lane(4, OverflowPolicy::Drop);
    assert_eq!(lane.finish(2, 100, 100), Ok(RunState::Failed));
    let unsent = lane.queue().unsent_records();
    assert_eq!(unsent.len(), 2);
    assert_eq!(unsent[1].exit_info(), Some((2, 100)));
}

#[test]
fn failed_run_reports_its_fault_and_keeps_its_queue() {
    let mut lane = active_lane(4, OverflowPolicy::Drop);
    lane.log(LogKind::Metric, b"kept", 0).unwrap();
    lane.fail(Failure::Transport(ConnError::Io));
    assert_eq!(lane.state(), RunState::Failed);
    assert_eq!(lane.cause(), Some(Failure::Transport(ConnError::Io)));
    assert_eq!(lane.log(LogKind::Metric, b"m", 0), Err(RunError::Transport(ConnError::Io)));
    assert_eq!(lane.update_config(b"c", 0), Err(RunError::Transport(ConnError::Io)));
    assert_eq!(lane.finish(0, 0, 10), Ok(RunState::Failed));
    lane.fail(Failure::Transport(ConnError::Timeout));
    assert_eq!(lane.cause(), Some(Failure::Transport(ConnError::Io)));
    assert_eq!(lane.trace(), vec![
        RunState::Created,
        RunState::Starting,
        RunState::Active,
        RunState::Failed
    ]);
    let unsent = lane.queue().unsent_records();
    assert_eq!(unsent.len(), 2);
    assert_eq!(unsent[1].payload, b"kept".to_vec());
}

#[test]
fn run_failed_by_the_launcher_reports_the_launch_error() {
    let mut lane = Lane::new(1, 4, OverflowPolicy::Drop);
    lane.start();
    lane.fail(Failure::Launch(LaunchError::NotFound));
    assert_eq!(lane.trace(), vec![RunState::Created, RunState::Starting, RunState::Failed]);
    assert_eq!(lane.log(LogKind::Metric, b"m", 0), Err(RunError::Launch(LaunchError::NotFound)));
    lane.activate();
    assert_eq!(lane.state(), RunState::Failed);
    assert_eq!(lane.queue().accepted(), 0);
}

#[test]
fn finished_run_is_not_failed_afterwards() {
    let mut lane = active_lane(4, OverflowPolicy::Drop);
    lane.finish(0, 0, 10).unwrap();
    drain(&mut lane);
    lane.fail(Failure::Transport(ConnError::Closed));
    assert_eq!(lane.state(), RunState::Finished);
    assert_eq!(lane.cause(), None);
    lane.expire(1000, 10);
    assert_eq!(lane.state(), RunState::Finished);
}
