use tracking_client::connection::{ConnError, ConnStatus};
use tracking_client::dispatcher::Dispatcher;
use tracking_client::frame::decode_frame;
use tracking_client::init;
use tracking_client::lane::{Failure, LogKind, LogOutcome, RunError};
use tracking_client::launcher::{
    LaunchAction, LaunchError, LaunchEvent, Readiness, ServiceEndpoint,
};
use tracking_client::record::{Record, RecordKind};
use tracking_client::run::RunState;
use tracking_client::session::{Action, Outbound, Phase, Run, Session, ShutdownStatus};
use tracking_client::settings::{OverflowPolicy, Settings};

const LOSS: &[u8] = b"{\"metric\":\"loss\",\"value\":0.5}";

fn settings(capacity: usize, overflow: OverflowPolicy) -> Settings {
    Settings::new(None, None, Some(capacity), None, Some(overflow))
}

fn bring_up(session: &mut Session) {
    assert_eq!(session.poll(), Action::Launch);
    assert_eq!(session.launch(LaunchEvent::Start), LaunchAction::Spawn);
    assert_eq!(session.launch(LaunchEvent::Spawned { pid: 77 }), LaunchAction::Poll { delay_ms: 100 });
    assert_eq!(session.launch(LaunchEvent::Polled(Readiness::Ready)), LaunchAction::Adopt { pid: 77 });
    assert_eq!(session.poll(), Action::Connect { delay_ms: 0 });
    session.connected();
    assert_eq!(session.phase(), Phase::Up);
}

fn read_frame(out: &Outbound) -> Record {
    let (body, used) = decode_frame(&out.frame).unwrap();
    assert_eq!(used, out.frame.len());
    let record = Record::decode(&body).unwrap();
    assert_eq!(record.run_id, out.run_id);
    assert_eq!(record.seq, out.seq);
    record
}

fn pump(session: &mut Session) -> Vec<Record> {
    let mut wire: Vec<Record> = Vec::new();
    loop {
        match session.poll() {
            Action::Send(out) => {
                wire.push(read_frame(&out));
                session.sent(out.run_id, out.seq);
            }
            _ => break,
        }
    }
    wire
}

fn ack(run_id: u64, seq: u64) -> Vec<u8> {
    let r = Record { kind: RecordKind::Unknown(0), run_id, seq, payload: Vec::new() };
    r.to_frame().unwrap()
}

#[test]
fn init_opens_the_first_run_on_a_new_session() {
    let (session, run) = init(None);
    assert_eq!(run.id(), 0);
    assert_eq!(session.phase(), Phase::Launching);
    assert_eq!(run.state(&session), Some(RunState::Active));
    let lane = session.lane(0).unwrap();
    assert_eq!(lane.trace(), vec![RunState::Created, RunState::Starting, RunState::Active]);
    assert_eq!(lane.queue().capacity(), 1024);
    assert_eq!(session.connection().status(), ConnStatus::Idle);
    assert_eq!(session.dispatcher().len(), 1);
    let (other, _) = init(Some(settings(3, OverflowPolicy::Drop)));
    assert_eq!(other.lane(0).unwrap().queue().capacity(), 3);
}

#[test]
fn healthy_run_sends_one_metric_then_one_exit() {
    let (mut session, run) = init(None);
    assert_eq!(run.log(&mut session, LogKind::Metric, LOSS, 0), Ok(LogOutcome::Queued { seq: 1 }));
    assert_eq!(run.finish(&mut session, 0, 1234, 9999), Ok(RunState::Finishing));
    bring_up(&mut session);
    let wire = pump(&mut session);
    let metrics: Vec<&Record> = wire.iter().filter(|r| r.kind == RecordKind::MetricPoint).collect();
    let exits: Vec<&Record> = wire.iter().filter(|r| r.kind == RecordKind::RunExit).collect();
    assert_eq!(metrics.len(), 1);
    assert_eq!(exits.len(), 1);
    assert_eq!(metrics[0].payload, LOSS.to_vec());
    assert_eq!(exits[0].exit_info(), Some((0, 1234)));
    assert_eq!(metrics[0].run_id, run.id());
    assert_eq!(exits[0].run_id, run.id());
    assert!(metrics[0].seq < exits[0].seq);
    let kinds: Vec<RecordKind> = wire.iter().map(|r| r.kind).collect();
    assert_eq!(kinds, vec![RecordKind::Telemetry, RecordKind::MetricPoint, RecordKind::RunExit]);
    assert_eq!(run.finish(&mut session, 0, 1300, 9999), Ok(RunState::Finished));
    assert_eq!(
        session.lane(run.id()).unwrap().trace(),
        vec![
            RunState::Created,
            RunState::Starting,
            RunState::Active,
            RunState::Finishing,
            RunState::Finished
        ]
    );
    assert_eq!(session.poll(), Action::Wait);
}

#[test]
fn third_log_blocks_then_times_out_on_a_full_queue() {
    let (mut session, run) = init(Some(settings(2, OverflowPolicy::Block { timeout_ms: 50 })));
    assert_eq!(run.log(&mut session, LogKind::Metric, b"1", 0), Ok(LogOutcome::Queued { seq: 1 }));
    assert_eq!(run.log(&mut session, LogKind::Metric, b"2", 0), Ok(LogOutcome::Queued { seq: 2 }));
    assert_eq!(
        run.log(&mut session, LogKind::Metric, b"3", 0),
        Ok(LogOutcome::Wait { remaining_ms: 50 })
    );
    assert_eq!(
        run.log(&mut session, LogKind::Metric, b"3", 25),
        Ok(LogOutcome::Wait { remaining_ms: 25 })
    );
    assert_eq!(run.log(&mut session, LogKind::Metric, b"3", 50), Err(RunError::QueueOverflow));
    assert_eq!(run.state(&session), Some(RunState::Active));
    assert_eq!(session.lane(run.id()).unwrap().queue().accepted(), 3);
}

#[test]
fn records_reach_the_service_in_the_order_logged() {
    let (mut session, run) = init(None);
    bring_up(&mut session);
    let mut wire: Vec<Record> = Vec::new();
    for i in 0..50u32 {
        run.log(&mut session, LogKind::Metric, &i.to_be_bytes(), 0).unwrap();
        if i % 4 == 3 {
            wire.extend(pump(&mut session));
        }
    }
    wire.extend(pump(&mut session));
    let payloads: Vec<Vec<u8>> = wire
        .iter()
        .filter(|r| r.kind == RecordKind::MetricPoint)
        .map(|r| r.payload.clone())
        .collect();
    let expected: Vec<Vec<u8>> = (0..50u32).map(|i| i.to_be_bytes().to_vec()).collect();
    assert_eq!(payloads, expected);
    for (i, r) in wire.iter().enumerate() {
        assert_eq!(r.seq, i as u64);
    }
}

#[test]
fn runs_take_turns_on_the_stream() {
    let (mut session, a) = init(None);
    let b = session.init_run(None).unwrap();
    let c = session.init_run(Some(settings(9, OverflowPolicy::Drop))).unwrap();
    assert_eq!((a.id(), b.id(), c.id()), (0, 1, 2));
    assert_eq!(session.lane(2).unwrap().queue().capacity(), 9);
    bring_up(&mut session);
    pump(&mut session);
    for i in 0..3u8 {
        a.log(&mut session, LogKind::Metric, &[i], 0).unwrap();
    }
    b.log(&mut session, LogKind::Metric, b"b", 0).unwrap();
    for i in 0..2u8 {
        c.log(&mut session, LogKind::Summary, &[i], 0).unwrap();
    }
    let order: Vec<u64> = pump(&mut session).iter().map(|r| r.run_id).collect();
    assert_eq!(order, vec![0, 1, 2, 0, 2, 0]);
}

#[test]
fn a_busy_run_does_not_starve_a_late_one() {
    let (mut session, a) = init(None);
    let b = session.init_run(None).unwrap();
    bring_up(&mut session);
    pump(&mut session);
    for i in 0..10u8 {
        a.log(&mut session, LogKind::Metric, &[i], 0).unwrap();
    }
    let mut order: Vec<u64> = Vec::new();
    for step in 0..4 {
        if step == 2 {
            b.log(&mut session, LogKind::Metric, b"late", 0).unwrap();
        }
        match session.poll() {
            Action::Send(out) => {
                order.push(out.run_id);
                session.sent(out.run_id, out.seq);
            }
            other => panic!("nothing to send: {:?}", other),
        }
    }
    assert_eq!(order, vec![0, 0, 1, 0]);
}

#[test]
fn poll_repeats_the_frame_until_the_write_is_reported() {
    let (mut session, run) = init(None);
    bring_up(&mut session);
    let first = session.poll();
    assert_eq!(session.poll(), first);
    let out = match first {
        Action::Send(out) => out,
        other => panic!("nothing to send: {:?}", other),
    };
    session.sent(out.run_id, out.seq + 1);
    session.sent(out.run_id + 1, out.seq);
    assert_eq!(session.poll(), Action::Send(out.clone()));
    session.sent(out.run_id, out.seq);
    assert_eq!(session.poll(), Action::Wait);
    session.sent(out.run_id, out.seq);
    assert_eq!(session.lane(run.id()).unwrap().queue().wired(), 1);
}

#[test]
fn acknowledgements_move_the_watermark_of_their_run() {
    let (mut session, a) = init(Some(settings(2, OverflowPolicy::Drop)));
    let b = session.init_run(None).unwrap();
    bring_up(&mut session);
    a.log(&mut session, LogKind::Metric, b"1", 0).unwrap();
    a.log(&mut session, LogKind::Metric, b"2", 0).unwrap();
    assert_eq!(a.log(&mut session, LogKind::Metric, b"3", 0), Ok(LogOutcome::Dropped));
    pump(&mut session);
    let mut inbound = ack(a.id(), 1);
    inbound.extend_from_slice(&ack(b.id(), 0));
    inbound.extend_from_slice(&ack(99, 0));
    inbound.extend_from_slice(&[0, 0, 0, 1, 9]);
    let tail = ack(a.id(), 2);
    inbound.extend_from_slice(&tail[..7]);
    assert_eq!(session.received(&inbound), 4);
    assert_eq!(session.lane(a.id()).unwrap().queue().acked(), 2);
    assert_eq!(session.lane(a.id()).unwrap().queue().pending_len(), 1);
    assert_eq!(session.lane(b.id()).unwrap().queue().acked(), 1);
    assert_eq!(session.received(&tail[7..]), 1);
    assert_eq!(session.lane(a.id()).unwrap().queue().acked(), 3);
    assert_eq!(a.log(&mut session, LogKind::Metric, b"3", 0), Ok(LogOutcome::Queued { seq: 3 }));
    assert_eq!(session.lane(a.id()).unwrap().queue().dropped(), 1);
}

#[test]
fn acknowledgement_of_an_unwritten_record_is_passed_over() {
    let (mut session, run) = init(None);
    bring_up(&mut session);
    run.log(&mut session, LogKind::Metric, b"1", 0).unwrap();
    assert_eq!(session.received(&ack(run.id(), 1)), 1);
    assert_eq!(session.lane(run.id()).unwrap().queue().acked(), 0);
    assert_eq!(session.lane(run.id()).unwrap().queue().pending_len(), 2);
}

#[test]
fn lost_transport_fails_every_live_run_once() {
    let (mut session, a) = init(None);
    let b = session.init_run(None).unwrap();
    let c = session.init_run(None).unwrap();
    bring_up(&mut session);
    pump(&mut session);
    c.finish(&mut session, 0, 1, 1000).unwrap();
    pump(&mut session);
    assert_eq!(c.state(&session), Some(RunState::Finished));
    for i in 0..5u8 {
        a.log(&mut session, LogKind::Metric, &[i], 0).unwrap();
    }
    b.finish(&mut session, 1, 2, 1000).unwrap();
    let mut delays: Vec<u64> = Vec::new();
    loop {
        session.conn_failed(ConnError::Io);
        match session.poll() {
            Action::Connect { delay_ms } => delays.push(delay_ms),
            Action::Stop => break,
            other => panic!("unexpected: {:?}", other),
        }
    }
    assert_eq!(delays, vec![100, 200, 400, 800, 1600]);
    assert_eq!(session.phase(), Phase::Down(Failure::Transport(ConnError::Io)));
    assert_eq!(a.state(&session), Some(RunState::Failed));
    assert_eq!(b.state(&session), Some(RunState::Failed));
    assert_eq!(c.state(&session), Some(RunState::Finished));
    assert_eq!(
        a.log(&mut session, LogKind::Metric, b"late", 0),
        Err(RunError::Transport(ConnError::Io))
    );
    assert_eq!(a.update_config(&mut session, b"late", 0), Err(RunError::Transport(ConnError::Io)));
    assert_eq!(a.finish(&mut session, 0, 5, 1000), Ok(RunState::Failed));
    assert_eq!(
        c.log(&mut session, LogKind::Metric, b"late", 0),
        Err(RunError::InvalidState(RunState::Finished))
    );
    session.conn_failed(ConnError::Timeout);
    session.connected();
    assert_eq!(session.phase(), Phase::Down(Failure::Transport(ConnError::Io)));
    let failed = |t: Vec<RunState>| t.iter().filter(|s| **s == RunState::Failed).count();
    assert_eq!(failed(session.lane(a.id()).unwrap().trace()), 1);
    assert_eq!(failed(session.lane(b.id()).unwrap().trace()), 1);
    assert_eq!(failed(session.lane(c.id()).unwrap().trace()), 0);
    let unsent = session.lane(a.id()).unwrap().queue().unsent_records();
    let payloads: Vec<Vec<u8>> = unsent.iter().map(|r| r.payload.clone()).collect();
    assert_eq!(payloads, vec![vec![0u8], vec![1u8], vec![2u8], vec![3u8], vec![4u8]]);
    assert_eq!(session.lane(b.id()).unwrap().queue().unsent_records()[0].exit_info(), Some((1, 2)));
    assert_eq!(session.poll(), Action::Stop);
}

#[test]
fn reconnect_resumes_where_the_stream_broke() {
    let (mut session, run) = init(None);
    bring_up(&mut session);
    for i in 0..4u8 {
        run.log(&mut session, LogKind::Metric, &[i], 0).unwrap();
    }
    let mut wire: Vec<Record> = Vec::new();
    for _ in 0..2 {
        if let Action::Send(out) = session.poll() {
            wire.push(read_frame(&out));
            session.sent(out.run_id, out.seq);
        }
    }
    session.conn_failed(ConnError::Closed);
    assert_eq!(session.poll(), Action::Connect { delay_ms: 100 });
    assert_eq!(run.log(&mut session, LogKind::Metric, &[4], 0), Ok(LogOutcome::Queued { seq: 5 }));
    session.conn_failed(ConnError::Timeout);
    assert_eq!(session.poll(), Action::Connect { delay_ms: 200 });
    session.connected();
    assert_eq!(session.connection().failures(), 0);
    wire.extend(pump(&mut session));
    let seqs: Vec<u64> = wire.iter().map(|r| r.seq).collect();
    assert_eq!(seqs, vec![0, 1, 2, 3, 4, 5]);
    assert_eq!(run.state(&session), Some(RunState::Active));
}

#[test]
fn launch_failure_fails_the_runs_and_later_ones_too() {
    let (mut session, run) = init(None);
    assert_eq!(session.launch(LaunchEvent::Start), LaunchAction::Spawn);
    assert_eq!(
        session.launch(LaunchEvent::SpawnFailed),
        LaunchAction::Fail(LaunchError::NotFound)
    );
    assert_eq!(session.phase(), Phase::Down(Failure::Launch(LaunchError::NotFound)));
    assert_eq!(run.state(&session), Some(RunState::Failed));
    assert_eq!(
        run.log(&mut session, LogKind::Metric, b"m", 0),
        Err(RunError::Launch(LaunchError::NotFound))
    );
    let late = session.init_run(None).unwrap();
    assert_eq!(late.id(), 1);
    assert_eq!(
        session.lane(1).unwrap().trace(),
        vec![RunState::Created, RunState::Starting, RunState::Failed]
    );
    assert_eq!(session.lane(1).unwrap().queue().accepted(), 0);
    assert_eq!(session.launch(LaunchEvent::Start), LaunchAction::Ignore);
    assert_eq!(session.endpoint(String::from("x")), None);
    assert_eq!(session.poll(), Action::Stop);
}

#[test]
fn session_attaches_to_a_configured_service() {
    let s = Settings::new(Some(String::from("127.0.0.1:7000")), None, None, None, None);
    let (mut session, _run) = init(Some(s));
    assert_eq!(session.launch(LaunchEvent::Start), LaunchAction::Probe);
    assert_eq!(session.launch(LaunchEvent::Probed { reachable: true }), LaunchAction::Attach);
    assert_eq!(session.phase(), Phase::Connecting { delay_ms: 0 });
    assert_eq!(
        session.endpoint(String::from("127.0.0.1:7000")),
        Some(ServiceEndpoint { address: String::from("127.0.0.1:7000"), spawned: None })
    );
    session.connected();
    assert_eq!(session.shutdown(10, 10), ShutdownStatus::Closed { stop_service: None });
}

#[test]
fn shutdown_finishes_live_runs_and_stops_a_spawned_service() {
    let (mut session, a) = init(None);
    let b = session.init_run(None).unwrap();
    bring_up(&mut session);
    a.log(&mut session, LogKind::Metric, b"m", 0).unwrap();
    assert_eq!(session.shutdown(100, 600), ShutdownStatus::Draining { remaining_ms: 500 });
    assert_eq!(a.state(&session), Some(RunState::Finishing));
    assert_eq!(b.state(&session), Some(RunState::Finishing));
    assert_eq!(session.phase(), Phase::Up);
    let wire = pump(&mut session);
    let exits: Vec<&Record> = wire.iter().filter(|r| r.kind == RecordKind::RunExit).collect();
    assert_eq!(exits.len(), 2);
    assert_eq!(exits[0].exit_info(), Some((0, 100)));
    assert_eq!(session.shutdown(200, 600), ShutdownStatus::Closed { stop_service: Some(77) });
    assert_eq!(a.state(&session), Some(RunState::Finished));
    assert_eq!(b.state(&session), Some(RunState::Finished));
    assert_eq!(session.phase(), Phase::Closed);
    assert_eq!(session.connection().status(), ConnStatus::Closed);
    assert_eq!(session.poll(), Action::Stop);
    assert_eq!(session.shutdown(300, 600), ShutdownStatus::Closed { stop_service: Some(77) });
    assert_eq!(session.lane(a.id()).unwrap().queue().accepted(), 3);
}

#[test]
fn shutdown_gives_up_at_its_deadline() {
    let (mut session, run) = init(None);
    bring_up(&mut session);
    run.log(&mut session, LogKind::Metric, b"m", 0).unwrap();
    assert_eq!(session.shutdown(0, 50), ShutdownStatus::Draining { remaining_ms: 50 });
    assert_eq!(session.shutdown(49, 50), ShutdownStatus::Draining { remaining_ms: 1 });
    assert_eq!(session.shutdown(50, 50), ShutdownStatus::Closed { stop_service: Some(77) });
    assert_eq!(run.state(&session), Some(RunState::Failed));
    assert_eq!(session.lane(run.id()).unwrap().cause(), Some(Failure::FinishTimeout));
    assert_eq!(session.lane(run.id()).unwrap().queue().unsent_len(), 3);
}

#[test]
fn a_service_that_was_started_is_stopped_even_if_it_never_got_ready() {
    let (mut session, run) = init(Some(Settings::new(None, Some(100), None, None, None)));
    assert_eq!(session.launch(LaunchEvent::Start), LaunchAction::Spawn);
    assert_eq!(session.launch(LaunchEvent::Spawned { pid: 12 }), LaunchAction::Poll { delay_ms: 100 });
    assert_eq!(
        session.launch(LaunchEvent::Polled(Readiness::NotReady)),
        LaunchAction::Fail(LaunchError::BindTimeout)
    );
    assert_eq!(run.state(&session), Some(RunState::Failed));
    assert_eq!(
        run.log(&mut session, LogKind::Metric, b"m", 0),
        Err(RunError::Launch(LaunchError::BindTimeout))
    );
    assert_eq!(session.shutdown(0, 10), ShutdownStatus::Closed { stop_service: Some(12) });
}

#[test]
fn closed_session_opens_only_failed_runs() {
    let mut session = Session::new(Settings::new(None, None, None, None, None));
    assert_eq!(session.poll(), Action::Wait);
    assert_eq!(session.shutdown(0, 0), ShutdownStatus::Closed { stop_service: None });
    let run = session.init_run(None).unwrap();
    assert_eq!(run.state(&session), Some(RunState::Failed));
    assert_eq!(
        run.log(&mut session, LogKind::Metric, b"m", 0),
        Err(RunError::Transport(ConnError::Closed))
    );
    assert_eq!(session.phase(), Phase::Closed);
}

#[test]
fn only_runs_at_rest_are_evicted() {
    let (mut session, a) = init(None);
    let b = session.init_run(None).unwrap();
    bring_up(&mut session);
    pump(&mut session);
    assert!(session.evict(&a).is_none());
    a.finish(&mut session, 0, 1, 100).unwrap();
    assert!(session.evict(&a).is_none());
    pump(&mut session);
    let gone = session.evict(&a).unwrap();
    assert_eq!(gone.id(), a.id());
    assert_eq!(gone.state(), RunState::Finished);
    assert_eq!(gone.queue().accepted(), 2);
    assert_eq!(a.state(&session), None);
    assert_eq!(a.log(&mut session, LogKind::Metric, b"m", 0), Err(RunError::UnknownRun));
    assert_eq!(a.finish(&mut session, 0, 1, 2), Err(RunError::UnknownRun));
    assert_eq!(a.update_config(&mut session, b"c", 0), Err(RunError::UnknownRun));
    assert!(session.evict(&a).is_none());
    assert_eq!(session.dispatcher().len(), 1);
    assert_eq!(b.log(&mut session, LogKind::Metric, b"m", 0), Ok(LogOutcome::Queued { seq: 1 }));
    let c = session.init_run(None).unwrap();
    assert_eq!(c.id(), 2);
    let order: Vec<u64> = pump(&mut session).iter().map(|r| r.run_id).collect();
    assert_eq!(order.len(), 2);
    assert!(order.contains(&1) && order.contains(&2));
    assert!(session.evict(&Run { id: 50 }).is_none());
}

#[test]
fn nothing_is_written_before_the_stream_is_open() {
    let (mut session, run) = init(None);
    run.log(&mut session, LogKind::Metric, b"m", 0).unwrap();
    assert_eq!(session.poll(), Action::Launch);
    session.sent(run.id(), 0);
    assert_eq!(session.received(&ack(run.id(), 0)), 0);
    session.connected();
    assert_eq!(session.phase(), Phase::Launching);
    session.conn_failed(ConnError::Io);
    assert_eq!(session.phase(), Phase::Launching);
    assert_eq!(session.lane(run.id()).unwrap().queue().wired(), 0);
}

#[test]
fn dispatcher_serves_runs_round_robin() {
    let mut d = Dispatcher::new();
    assert_eq!(d.pick(), None);
    assert_eq!(d.next(), None);
    let a = d.register(4, OverflowPolicy::Drop, None).unwrap();
    let b = d.register(4, OverflowPolicy::Drop, Some(Failure::Transport(ConnError::Io))).unwrap();
    let c = d.register(4, OverflowPolicy::Drop, None).unwrap();
    assert_eq!((a, b, c), (0, 1, 2));
    assert_eq!(d.find(1), Some(1));
    assert_eq!(d.find(3), None);
    assert_eq!(d.lane(1).state(), RunState::Failed);
    assert!(!d.all_at_rest());
    assert_eq!(d.pick(), Some(0));
    d.sent(0, 0);
    assert_eq!(d.pick(), Some(2));
    d.sent(2, 0);
    assert_eq!(d.pick(), None);
    assert_eq!(d.log(2, LogKind::Metric, b"x", 0), Ok(LogOutcome::Queued { seq: 1 }));
    assert_eq!(d.log(0, LogKind::Metric, b"y", 0), Ok(LogOutcome::Queued { seq: 1 }));
    assert_eq!(d.next().unwrap().run_id, 0);
    d.fail_all(Failure::Transport(ConnError::Timeout));
    assert!(d.all_at_rest());
    assert_eq!(d.next(), None);
    assert_eq!(d.lane(0).cause(), Some(Failure::Transport(ConnError::Timeout)));
    assert_eq!(d.lane(1).cause(), Some(Failure::Transport(ConnError::Io)));
    assert!(d.inbound(&Record { kind: RecordKind::Unknown(0), run_id: 0, seq: 0, payload: Vec::new() }.encode()));
    assert!(!d.inbound(&[1, 2, 3]));
    assert_eq!(d.lane(0).queue().acked(), 1);
}
