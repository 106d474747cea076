//! The session: the one owner of the launcher, the channel, the dispatcher
//! and the runs of a client process. It is an object that the caller makes
//! and hands on, and it decides only: `poll` says what is to be done next,
//! and the caller reports back what came of it.

use vstd::prelude::*;
use crate::connection::{ConnError, ConnView, Connection, Retry};
use crate::dispatcher::{
    lemma_fail_all_keeps_wf, lemma_finish_all_keeps_wf, lemma_inbound_all_keeps_wf,
    lemma_register_keeps_wf, lemma_without_keeps_wf, Dispatcher, DispatcherView,
};
use crate::frame::spec_frame;
use crate::record::{lemma_envelope_round_trip, spec_envelope};
use crate::lane::{Failure, Lane, LogKind, LogOutcome, RunError};
use crate::launcher::{
    spec_launch_step, spec_max_polls, LaunchAction, LaunchEvent, LaunchState, Launcher,
    ServiceEndpoint,
};
use crate::run::RunState;
use crate::settings::{OverflowPolicy, Settings};

verus! {

/// Where the session stands with its service.
#[derive(Clone, Copy, PartialEq, Eq, Structural, Debug)]
pub enum Phase {
    /// No run has been asked for yet; nothing has been started.
    Idle,
    /// The service is being found or started.
    Launching,
    /// The service is at hand and the stream is to be opened after a pause.
    Connecting { delay_ms: u64 },
    /// The stream is open.
    Up,
    /// The service is out of reach for good.
    Down(Failure),
    /// The session has been shut down.
    Closed,
}

/// A frame that is due to go out.
#[derive(Clone, PartialEq, Eq, Debug)]
pub struct Outbound {
    /// The run whose record the frame carries.
    pub run_id: u64,
    /// The record's sequence number.
    pub seq: u64,
    /// The bytes to write.
    pub frame: Vec<u8>,
}

/// What the session asks of its caller.
#[derive(Clone, PartialEq, Eq, Debug)]
pub enum Action {
    /// Report `LaunchEvent::Start` to `launch` and do as it says.
    Launch,
    /// Pause, open the stream to the service and report `connected` or
    /// `conn_failed`.
    Connect { delay_ms: u64 },
    /// Write the frame and report `sent` or `conn_failed`.
    Send(Outbound),
    /// Nothing is to be written now.
    Wait,
    /// The session is over.
    Stop,
}

/// How far a shutdown has come.
#[derive(Clone, Copy, PartialEq, Eq, Structural, Debug)]
pub enum ShutdownStatus {
    /// Runs are still being emptied; the caller is to go on writing and to
    /// call again, within this time.
    Draining { remaining_ms: u64 },
    /// Every run is at rest and the stream is to be closed. The process id
    /// is that of the service, if this client started one: it is to be
    /// asked to exit.
    Closed { stop_service: Option<u32> },
}

/// The handle of a run.
#[derive(Clone, Copy, PartialEq, Eq, Structural, Debug)]
pub struct Run {
    /// No other run of the session has or had this id.
    pub id: u64,
}

/// The session as a mathematical value.
pub struct SessionView {
    pub phase: Phase,
    pub runs: DispatcherView,
    pub conn: ConnView,
    pub launch: LaunchState,
    /// Whether a service address was configured.
    pub has_address: bool,
    /// Looks at a starting service that the launcher allows.
    pub poll_budget: u32,
    /// Process id of the service, once this client has started one.
    pub spawned: Option<u32>,
    /// Queue bound of a run that names none.
    pub capacity: nat,
    /// Overflow policy of a run that names none.
    pub overflow: OverflowPolicy,
}

impl SessionView {
    /// What holds of a session at all times.
    pub open spec fn wf(self) -> bool {
        &&& self.runs.wf()
        &&& self.capacity <= usize::MAX
        &&& self.conn.failures <= self.conn.policy.max_attempts
        &&& (self.phase is Idle || self.phase is Launching) ==> self.conn.status is Idle
        &&& self.phase is Connecting ==> self.conn.is_live()
        &&& self.phase is Up ==> self.conn.status is Open
        &&& (self.phase is Down || self.phase is Closed) ==> self.runs.all_at_rest()
    }

    /// Why a run that is opened now fails at once, if it does: the service
    /// is out of reach, or the session is shut.
    pub open spec fn doom(self) -> Option<Failure> {
        match self.phase {
            Phase::Down(cause) => Some(cause),
            Phase::Closed => Some(Failure::Transport(ConnError::Closed)),
            _ => None,
        }
    }

    /// The session after a run was opened. The first run sets the launcher
    /// going.
    pub open spec fn init_run(self, capacity: nat, overflow: OverflowPolicy) -> SessionView {
        SessionView {
            runs: self.runs.register(capacity, overflow, self.doom()),
            phase: if self.phase is Idle && self.runs.next_id < u64::MAX {
                Phase::Launching
            } else {
                self.phase
            },
            ..self
        }
    }

    /// The process that the session is answerable for after `event` was
    /// reported: the service that was started, from the moment it was
    /// started, whether or not it ever becomes ready.
    pub open spec fn child_after(self, event: LaunchEvent) -> Option<u32> {
        match (self.launch, event) {
            (LaunchState::Spawning, LaunchEvent::Spawned { pid }) => Some(pid),
            _ => self.spawned,
        }
    }

    /// The session and the launcher's request after the caller reported
    /// `event` of the launch. With a service at hand the stream is to be
    /// opened; when none can be had the session is down and every run is
    /// given up.
    pub open spec fn launch(self, event: LaunchEvent) -> (SessionView, LaunchAction) {
        if self.phase is Launching {
            let (next, action) = spec_launch_step(
                self.launch,
                event,
                self.has_address,
                self.poll_budget,
            );
            let s = SessionView { launch: next, spawned: self.child_after(event), ..self };
            match action {
                LaunchAction::Attach | LaunchAction::Adopt { .. } => (
                    SessionView { phase: Phase::Connecting { delay_ms: 0 }, ..s },
                    action,
                ),
                LaunchAction::Fail(e) => (
                    SessionView {
                        phase: Phase::Down(Failure::Launch(e)),
                        runs: self.runs.fail_all(Failure::Launch(e)),
                        ..s
                    },
                    action,
                ),
                _ => (s, action),
            }
        } else {
            (self, LaunchAction::Ignore)
        }
    }

    /// The session after the stream was opened.
    pub open spec fn connected(self) -> SessionView {
        if self.phase is Connecting {
            SessionView { phase: Phase::Up, conn: self.conn.opened(), ..self }
        } else {
            self
        }
    }

    /// The session after the stream failed or could not be opened. While the
    /// policy allows another attempt the stream is to be reopened after the
    /// pause that the policy gives. After that the session is down: every
    /// run that was not at rest is given up for the fault, and the queues
    /// stay as they were.
    pub open spec fn conn_failed(self, err: ConnError) -> SessionView {
        if self.phase is Up || self.phase is Connecting {
            match self.conn.on_fault(err) {
                Retry::After { delay_ms } => SessionView {
                    phase: Phase::Connecting { delay_ms },
                    conn: self.conn.failed(err),
                    ..self
                },
                Retry::GiveUp(e) => SessionView {
                    phase: Phase::Down(Failure::Transport(e)),
                    conn: self.conn.failed(err),
                    runs: self.runs.fail_all(Failure::Transport(e)),
                    ..self
                },
            }
        } else {
            self
        }
    }

    /// The session after a write was reported.
    pub open spec fn sent(self, id: u64, seq: u64) -> SessionView {
        if self.phase is Up {
            SessionView { runs: self.runs.sent(id, seq), ..self }
        } else {
            self
        }
    }

    /// The session after `chunk` was read from the stream: the frames that
    /// it completes are taken in as acknowledgements, in the order in which
    /// they came.
    pub open spec fn received(self, chunk: Seq<u8>) -> SessionView {
        if self.phase is Up {
            SessionView {
                runs: self.runs.inbound_all(self.conn.arrivals(chunk)),
                conn: self.conn.received(chunk),
                ..self
            }
        } else {
            self
        }
    }

    /// The session after `log` on the run `id`.
    pub open spec fn log(self, id: u64, kind: LogKind, payload: Seq<u8>, waited_ms: u64) -> SessionView {
        SessionView { runs: self.runs.log(id, kind, payload, waited_ms).0, ..self }
    }

    /// The session after `update_config` on the run `id`.
    pub open spec fn update_config(self, id: u64, delta: Seq<u8>, waited_ms: u64) -> SessionView {
        SessionView { runs: self.runs.update_config(id, delta, waited_ms).0, ..self }
    }

    /// The session after `finish` on the run `id`.
    pub open spec fn finish(self, id: u64, exit_code: i32, now_ms: u64, deadline_ms: u64) -> SessionView {
        SessionView { runs: self.runs.finish(id, exit_code, now_ms, deadline_ms).0, ..self }
    }

    /// The session after the run `id` was asked to be forgotten.
    pub open spec fn evict(self, id: u64) -> SessionView {
        SessionView { runs: self.runs.evict(id), ..self }
    }

    /// The session after `shutdown`. Every run is asked to finish, with exit
    /// code 0. Once every run is at rest, as it is at the deadline at the
    /// latest, the channel is shut and the session is closed.
    pub open spec fn shutdown(self, now_ms: u64, deadline_ms: u64) -> SessionView {
        if self.phase is Closed {
            self
        } else {
            let runs = self.runs.finish_all(0, now_ms, deadline_ms);
            if runs.all_at_rest() {
                SessionView { runs, phase: Phase::Closed, conn: self.conn.closed(), ..self }
            } else {
                SessionView { runs, ..self }
            }
        }
    }

    /// What `shutdown` answers.
    pub open spec fn shutdown_answer(self, now_ms: u64, deadline_ms: u64) -> ShutdownStatus {
        if self.shutdown(now_ms, deadline_ms).phase is Closed {
            ShutdownStatus::Closed { stop_service: self.spawned }
        } else {
            ShutdownStatus::Draining { remaining_ms: (deadline_ms - now_ms) as u64 }
        }
    }
}

/// Opening a run keeps the session in order.
pub proof fn lemma_init_run_keeps_wf(s: SessionView, capacity: nat, overflow: OverflowPolicy)
    requires
        s.wf(),
        capacity <= usize::MAX,
    ensures
        s.init_run(capacity, overflow).wf(),
{
    lemma_register_keeps_wf(s.runs, capacity, overflow, s.doom());
    let t = s.init_run(capacity, overflow);
    if s.phase is Down || s.phase is Closed {
        assert forall|i: int| 0 <= i < t.runs.lanes.len() implies (#[trigger] t.runs.lanes[i]).state.spec_is_terminal() by {
            if i < s.runs.lanes.len() {
                assert(s.runs.lanes[i].state.spec_is_terminal());
            } else {
                crate::lane::lemma_fail_keeps_wf(
                    crate::lane::LaneView::created(s.runs.next_id, capacity, overflow).start(),
                    s.doom().unwrap(),
                );
            }
        }
    }
}

/// A report of the launch keeps the session in order.
pub proof fn lemma_launch_keeps_wf(s: SessionView, event: LaunchEvent)
    requires
        s.wf(),
    ensures
        s.launch(event).0.wf(),
{
    if s.phase is Launching {
        let (next, action) = spec_launch_step(s.launch, event, s.has_address, s.poll_budget);
        match action {
            LaunchAction::Fail(e) => {
                lemma_fail_all_keeps_wf(s.runs, Failure::Launch(e));
            },
            _ => {},
        }
    }
}

/// The loss of the transport reaches every run, once. When the last attempt
/// to reconnect is used up, every run that was not at rest is `Failed` for
/// the fault and has entered that state this once; runs at rest are not
/// touched; every queue is as it was, with what it never wrote still in it;
/// and whoever logs to a run that failed so is told of the fault.
pub proof fn lemma_transport_loss(
    s: SessionView,
    err: ConnError,
    i: int,
    kind: LogKind,
    payload: Seq<u8>,
    waited_ms: u64,
)
    requires
        s.wf(),
        s.phase is Up || s.phase is Connecting,
        s.conn.failures == s.conn.policy.max_attempts,
        0 <= i < s.runs.lanes.len(),
    ensures
        s.conn_failed(err).wf(),
        s.conn_failed(err).phase == Phase::Down(Failure::Transport(err)),
        s.conn_failed(err).runs.all_at_rest(),
        s.conn_failed(err).runs.lanes.len() == s.runs.lanes.len(),
        s.conn_failed(err).runs.lanes[i].queue == s.runs.lanes[i].queue,
        s.runs.lanes[i].state.spec_is_terminal() ==> s.conn_failed(err).runs.lanes[i]
            == s.runs.lanes[i],
        !s.runs.lanes[i].state.spec_is_terminal() ==> {
            let failed = s.conn_failed(err).runs.lanes[i];
            &&& failed.state is Failed
            &&& failed.trace == s.runs.lanes[i].trace.push(RunState::Failed)
            &&& failed.log(kind, payload, waited_ms) == (
                failed,
                Err::<LogOutcome, RunError>(RunError::Transport(err)),
            )
            &&& s.conn_failed(err).log(failed.id, kind, payload, waited_ms) == s.conn_failed(err)
        },
{
    let t = s.conn_failed(err);
    lemma_fail_all_keeps_wf(s.runs, Failure::Transport(err));
    assert(s.runs.lanes[i].wf());
    crate::lane::lemma_fail_keeps_wf(s.runs.lanes[i], Failure::Transport(err));
    if !s.runs.lanes[i].state.spec_is_terminal() {
        let failed = t.runs.lanes[i];
        assert(t.runs.holds_at(failed.id, i));
        crate::dispatcher::lemma_index_unique(t.runs, failed.id, i);
        assert(t.runs.lanes.update(i, failed) =~= t.runs.lanes);
    }
}

/// A fault of the stream keeps the session in order.
pub proof fn lemma_conn_failed_keeps_wf(s: SessionView, err: ConnError)
    requires
        s.wf(),
    ensures
        s.conn_failed(err).wf(),
{
    if s.phase is Up || s.phase is Connecting {
        crate::connection::lemma_retry_budget(s.conn, err);
        match s.conn.on_fault(err) {
            Retry::GiveUp(e) => {
                lemma_fail_all_keeps_wf(s.runs, Failure::Transport(e));
            },
            _ => {},
        }
    }
}

/// A shutdown keeps the session in order, and is over at the deadline at the
/// latest: from then on every run is at rest and the session is closed.
pub proof fn lemma_shutdown_is_bounded(s: SessionView, now_ms: u64, deadline_ms: u64)
    requires
        s.wf(),
    ensures
        s.shutdown(now_ms, deadline_ms).wf(),
        now_ms >= deadline_ms ==> s.shutdown(now_ms, deadline_ms).phase is Closed,
        s.shutdown(now_ms, deadline_ms).phase is Closed ==> s.shutdown(
            now_ms,
            deadline_ms,
        ).runs.all_at_rest(),
{
    lemma_finish_all_keeps_wf(s.runs, 0, now_ms, deadline_ms);
    let runs = s.runs.finish_all(0, now_ms, deadline_ms);
    if !(s.phase is Closed) && now_ms >= deadline_ms {
        assert forall|i: int| 0 <= i < runs.lanes.len() implies (#[trigger] runs.lanes[i]).state.spec_is_terminal() by {
            assert(s.runs.lanes[i].wf());
            crate::lane::lemma_finish_keeps_wf(s.runs.lanes[i], 0, now_ms, deadline_ms);
        }
    }
    if s.phase is Down && !(runs.all_at_rest()) {
        let i = choose|i: int| 0 <= i < runs.lanes.len() && !(#[trigger] runs.lanes[i]).state.spec_is_terminal();
        assert(s.runs.lanes[i].state.spec_is_terminal());
    }
}

/// Runs at rest stay at rest: no operation on a run wakes a session that is
/// down or shut.
pub proof fn lemma_rest_is_kept(d: DispatcherView, id: u64)
    requires
        d.wf(),
        d.all_at_rest(),
    ensures
        forall|kind: LogKind, payload: Seq<u8>, waited_ms: u64|
            (#[trigger] d.log(id, kind, payload, waited_ms)).0 == d,
        forall|delta: Seq<u8>, waited_ms: u64| (#[trigger] d.update_config(id, delta, waited_ms)).0 == d,
        forall|exit_code: i32, now_ms: u64, deadline_ms: u64|
            (#[trigger] d.finish(id, exit_code, now_ms, deadline_ms)).0 == d,
        d.evict(id).wf(),
        d.evict(id).all_at_rest(),
{
    match d.index_of(id) {
        Some(i) => {
            assert(d.lanes[i].state.spec_is_terminal());
            assert(d.lanes.update(i, d.lanes[i]) =~= d.lanes);
            lemma_without_keeps_wf(d, i);
            let e = d.without(i);
            assert forall|a: int| 0 <= a < e.lanes.len() implies (#[trigger] e.lanes[a]).state.spec_is_terminal() by {
                let k = if a < i {
                    a
                } else {
                    a + 1
                };
                assert(d.lanes[k].state.spec_is_terminal());
            }
        },
        None => {},
    }
}

impl Run {
    /// The id of the run.
    pub open spec fn spec_id(&self) -> u64 {
        self.id
    }

    /// The id of the run.
    #[verifier::when_used_as_spec(spec_id)]
    pub fn id(&self) -> (id: u64)
        ensures
            id == self.spec_id(),
    {
        self.id
    }

    /// Logs a record of the given kind. `waited_ms` says how long the caller
    /// has waited for room for this record so far; an answer of
    /// `LogOutcome::Wait` asks it to wait and call again.
    pub fn log(&self, session: &mut Session, kind: LogKind, payload: &[u8], waited_ms: u64) -> (r:
        Result<LogOutcome, RunError>)
        requires
            old(session).wf(),
        ensures
            final(session).wf(),
            final(session)@ == old(session)@.log(self.id, kind, payload@, waited_ms),
            r == old(session)@.runs.log(self.id, kind, payload@, waited_ms).1,
    {
        session.log(self.id, kind, payload, waited_ms)
    }

    /// Queues a change of the run's configuration.
    pub fn update_config(&self, session: &mut Session, delta: &[u8], waited_ms: u64) -> (r: Result<
        LogOutcome,
        RunError,
    >)
        requires
            old(session).wf(),
        ensures
            final(session).wf(),
            final(session)@ == old(session)@.update_config(self.id, delta@, waited_ms),
            r == old(session)@.runs.update_config(self.id, delta@, waited_ms).1,
    {
        session.update_config(self.id, delta, waited_ms)
    }

    /// Asks the run to end with `exit_code`. `now_ms` is the time of the
    /// call, `deadline_ms` the time by which the queue must be empty. The
    /// caller goes on writing what `poll` hands out and calls again until
    /// the answer is a state at rest.
    pub fn finish(&self, session: &mut Session, exit_code: i32, now_ms: u64, deadline_ms: u64) -> (r:
        Result<RunState, RunError>)
        requires
            old(session).wf(),
        ensures
            final(session).wf(),
            final(session)@ == old(session)@.finish(self.id, exit_code, now_ms, deadline_ms),
            r == old(session)@.runs.finish(self.id, exit_code, now_ms, deadline_ms).1,
    {
        session.finish(self.id, exit_code, now_ms, deadline_ms)
    }

    /// The state of the run, while the session holds it.
    pub fn state(&self, session: &Session) -> (r: Option<RunState>)
        requires
            session.wf(),
        ensures
            r == match session@.runs.index_of(self.id) {
                Some(i) => Some(session@.runs.lanes[i].state),
                None => None,
            },
    {
        match session.lane(self.id) {
            Some(lane) => Some(lane.state()),
            None => None,
        }
    }
}

/// The owner of everything that a client process holds of its service.
pub struct Session {
    settings: Settings,
    launcher: Launcher,
    conn: Connection,
    dispatcher: Dispatcher,
    phase: Phase,
    spawned: Option<u32>,
}

impl View for Session {
    type V = SessionView;

    closed spec fn view(&self) -> SessionView {
        SessionView {
            phase: self.phase,
            runs: self.dispatcher@,
            conn: self.conn@,
            launch: self.launcher.spec_state(),
            has_address: self.launcher.spec_has_address(),
            poll_budget: self.launcher.spec_poll_budget(),
            spawned: self.spawned,
            capacity: self.settings.queue_capacity as nat,
            overflow: self.settings.overflow,
        }
    }
}

impl Session {
    /// What the fields have to do with the value they stand for.
    pub closed spec fn fits(&self) -> bool {
        self.dispatcher.fits()
    }

    /// Whether the session is in order.
    pub open spec fn wf(&self) -> bool {
        self.fits() && self@.wf()
    }

    /// A session that has started nothing yet.
    pub fn new(settings: Settings) -> (s: Session)
        ensures
            s.wf(),
            s@ == (SessionView {
                phase: Phase::Idle,
                runs: DispatcherView::empty(),
                conn: ConnView::idle(settings.backoff),
                launch: LaunchState::Idle,
                has_address: settings.service_address is Some,
                poll_budget: spec_max_polls(settings.spawn_timeout_ms),
                spawned: None,
                capacity: settings.queue_capacity as nat,
                overflow: settings.overflow,
            }),
    {
        let launcher = Launcher::for_settings(&settings);
        let conn = Connection::new(settings.backoff);
        Session {
            settings,
            launcher,
            conn,
            dispatcher: Dispatcher::new(),
            phase: Phase::Idle,
            spawned: None,
        }
    }

    /// Opens a run. Its queue is bounded and its overflow handled as
    /// `overrides` say, or as the session's settings say where there are no
    /// overrides. The run is `Active`, with its opening record queued; in a
    /// session that is down or shut it is `Failed`. The first run sets the
    /// launcher going. Fails only when no id is left.
    pub fn init_run(&mut self, overrides: Option<Settings>) -> (r: Result<Run, RunError>)
        requires
            old(self).wf(),
        ensures
            final(self).wf(),
            final(self)@ == old(self)@.init_run(
                match overrides {
                    Some(o) => o.queue_capacity as nat,
                    None => old(self)@.capacity,
                },
                match overrides {
                    Some(o) => o.overflow,
                    None => old(self)@.overflow,
                },
            ),
            r == if old(self)@.runs.next_id < u64::MAX {
                Ok::<Run, RunError>(Run { id: old(self)@.runs.next_id })
            } else {
                Err::<Run, RunError>(RunError::RegistryFull)
            },
    {
        let (capacity, overflow) = match overrides {
            Some(o) => (o.queue_capacity, o.overflow),
            None => (self.settings.queue_capacity, self.settings.overflow),
        };
        let doomed: Option<Failure> = match self.phase {
            Phase::Down(cause) => Some(cause),
            Phase::Closed => Some(Failure::Transport(ConnError::Closed)),
            _ => None,
        };
        proof {
            lemma_init_run_keeps_wf(self@, capacity as nat, overflow);
        }
        match self.dispatcher.register(capacity, overflow, doomed) {
            Ok(id) => {
                match self.phase {
                    Phase::Idle => {
                        self.phase = Phase::Launching;
                    },
                    _ => {},
                }
                Ok(Run { id })
            },
            Err(e) => Err(e),
        }
    }

    /// What is to be done next.
    pub fn poll(&self) -> (r: Action)
        requires
            self.wf(),
        ensures
            match self@.phase {
                Phase::Idle => r is Wait,
                Phase::Launching => r is Launch,
                Phase::Connecting { delay_ms } => r matches Action::Connect { delay_ms: d } && d
                    == delay_ms,
                Phase::Up => match r {
                    Action::Send(out) => {
                        &&& self@.runs.turn() is Some
                        &&& out.run_id == self@.runs.lanes[self@.runs.turn().unwrap()].id
                        &&& out.seq == self@.runs.lanes[self@.runs.turn().unwrap()].queue.wired
                        &&& self@.runs.lanes[self@.runs.turn().unwrap()].queue.head() is Some
                        &&& out.frame@ == spec_frame(
                            spec_envelope(
                                self@.runs.lanes[self@.runs.turn().unwrap()].queue.head().unwrap(),
                            ),
                        )
                    },
                    Action::Wait => self@.runs.idle(),
                    _ => false,
                },
                Phase::Down(_) => r is Stop,
                Phase::Closed => r is Stop,
            },
    {
        match self.phase {
            Phase::Idle => Action::Wait,
            Phase::Launching => Action::Launch,
            Phase::Connecting { delay_ms } => Action::Connect { delay_ms },
            Phase::Up => match self.dispatcher.next() {
                Some(record) => {
                    proof {
                        lemma_envelope_round_trip(record@);
                    }
                    let body = record.encode();
                    match self.conn.send(body.as_slice()) {
                        Ok(frame) => Action::Send(
                            Outbound { run_id: record.run_id, seq: record.seq, frame },
                        ),
                        Err(_) => Action::Wait,
                    }
                },
                None => Action::Wait,
            },
            Phase::Down(_) => Action::Stop,
            Phase::Closed => Action::Stop,
        }
    }

    /// Takes in what the caller saw of the launch and says what to do next.
    pub fn launch(&mut self, event: LaunchEvent) -> (action: LaunchAction)
        requires
            old(self).wf(),
        ensures
            final(self).wf(),
            (final(self)@, action) == old(self)@.launch(event),
    {
        proof {
            lemma_launch_keeps_wf(self@, event);
        }
        match self.phase {
            Phase::Launching => {
                match (self.launcher.state(), event) {
                    (LaunchState::Spawning, LaunchEvent::Spawned { pid }) => {
                        self.spawned = Some(pid);
                    },
                    _ => {},
                }
                let action = self.launcher.ensure_endpoint(event);
                match action {
                    LaunchAction::Attach | LaunchAction::Adopt { .. } => {
                        self.phase = Phase::Connecting { delay_ms: 0 };
                    },
                    LaunchAction::Fail(e) => {
                        self.phase = Phase::Down(Failure::Launch(e));
                        self.dispatcher.fail_all(Failure::Launch(e));
                    },
                    _ => {},
                }
                action
            },
            _ => LaunchAction::Ignore,
        }
    }

    /// The stream has been opened.
    pub fn connected(&mut self)
        requires
            old(self).wf(),
        ensures
            final(self).wf(),
            final(self)@ == old(self)@.connected(),
    {
        match self.phase {
            Phase::Connecting { .. } => {
                self.conn.opened();
                self.phase = Phase::Up;
            },
            _ => {},
        }
    }

    /// The stream has failed, or could not be opened.
    pub fn conn_failed(&mut self, err: ConnError)
        requires
            old(self).wf(),
        ensures
            final(self).wf(),
            final(self)@ == old(self)@.conn_failed(err),
    {
        proof {
            lemma_conn_failed_keeps_wf(self@, err);
        }
        match self.phase {
            Phase::Up | Phase::Connecting { .. } => {
                match self.conn.failed(err) {
                    Retry::After { delay_ms } => {
                        self.phase = Phase::Connecting { delay_ms };
                    },
                    Retry::GiveUp(e) => {
                        self.phase = Phase::Down(Failure::Transport(e));
                        self.dispatcher.fail_all(Failure::Transport(e));
                    },
                }
            },
            _ => {},
        }
    }

    /// The record numbered `seq` of the run `id` has been written.
    pub fn sent(&mut self, id: u64, seq: u64)
        requires
            old(self).wf(),
        ensures
            final(self).wf(),
            final(self)@ == old(self)@.sent(id, seq),
    {
        match self.phase {
            Phase::Up => {
                self.dispatcher.sent(id, seq);
            },
            _ => {},
        }
    }

    /// Takes in bytes that were read from the stream. Returns how many
    /// frames they completed.
    pub fn received(&mut self, chunk: &[u8]) -> (frames: usize)
        requires
            old(self).wf(),
        ensures
            final(self).wf(),
            final(self)@ == old(self)@.received(chunk@),
            frames == if old(self)@.phase is Up {
                old(self)@.conn.arrivals(chunk@).len()
            } else {
                0
            },
    {
        match self.phase {
            Phase::Up => {
                let ghost arrivals = self@.conn.arrivals(chunk@);
                match self.conn.receive(chunk) {
                    Ok(bodies) => {
                        let n: usize = bodies.len();
                        let mut i: usize = 0;
                        while i < n
                            invariant
                                i <= n,
                                n == bodies@.len(),
                                n == arrivals.len(),
                                forall|j: int| 0 <= j < n ==> (#[trigger] bodies@[j])@ == arrivals[j],
                                self.dispatcher.wf(),
                                old(self).wf(),
                                self.dispatcher@ == old(self)@.runs.inbound_all(
                                    arrivals.subrange(0, i as int),
                                ),
                                self.phase == old(self).phase,
                                self.spawned == old(self).spawned,
                                self.settings == old(self).settings,
                                self.launcher == old(self).launcher,
                                self.conn@ == old(self)@.conn.received(chunk@),
                            decreases n - i,
                        {
                            assert(arrivals.subrange(0, i + 1).drop_last() =~= arrivals.subrange(
                                0,
                                i as int,
                            ));
                            let _ = self.dispatcher.inbound(bodies[i].as_slice());
                            i = i + 1;
                        }
                        proof {
                            assert(arrivals.subrange(0, n as int) =~= arrivals);
                            lemma_inbound_all_keeps_wf(old(self)@.runs, arrivals);
                        }
                        n
                    },
                    Err(_) => 0,
                }
            },
            _ => 0,
        }
    }

    /// Logs a record for the run `id`.
    pub fn log(&mut self, id: u64, kind: LogKind, payload: &[u8], waited_ms: u64) -> (r: Result<
        LogOutcome,
        RunError,
    >)
        requires
            old(self).wf(),
        ensures
            final(self).wf(),
            final(self)@ == old(self)@.log(id, kind, payload@, waited_ms),
            r == old(self)@.runs.log(id, kind, payload@, waited_ms).1,
    {
        proof {
            if self@.runs.all_at_rest() {
                lemma_rest_is_kept(self@.runs, id);
            }
        }
        self.dispatcher.log(id, kind, payload, waited_ms)
    }

    /// Queues a change of configuration for the run `id`.
    pub fn update_config(&mut self, id: u64, delta: &[u8], waited_ms: u64) -> (r: Result<
        LogOutcome,
        RunError,
    >)
        requires
            old(self).wf(),
        ensures
            final(self).wf(),
            final(self)@ == old(self)@.update_config(id, delta@, waited_ms),
            r == old(self)@.runs.update_config(id, delta@, waited_ms).1,
    {
        proof {
            if self@.runs.all_at_rest() {
                lemma_rest_is_kept(self@.runs, id);
            }
        }
        self.dispatcher.update_config(id, delta, waited_ms)
    }

    /// Asks the run `id` to end.
    pub fn finish(&mut self, id: u64, exit_code: i32, now_ms: u64, deadline_ms: u64) -> (r: Result<
        RunState,
        RunError,
    >)
        requires
            old(self).wf(),
        ensures
            final(self).wf(),
            final(self)@ == old(self)@.finish(id, exit_code, now_ms, deadline_ms),
            r == old(self)@.runs.finish(id, exit_code, now_ms, deadline_ms).1,
    {
        proof {
            if self@.runs.all_at_rest() {
                lemma_rest_is_kept(self@.runs, id);
            }
        }
        self.dispatcher.finish(id, exit_code, now_ms, deadline_ms)
    }

    /// Shuts the session down. Every run that is still open is asked to
    /// finish, with exit code 0. While runs are being emptied the caller goes
    /// on writing what `poll` hands out and calls again; at `deadline_ms` at
    /// the latest the runs that are not done are given up and the session is
    /// closed.
    pub fn shutdown(&mut self, now_ms: u64, deadline_ms: u64) -> (r: ShutdownStatus)
        requires
            old(self).wf(),
        ensures
            final(self).wf(),
            final(self)@ == old(self)@.shutdown(now_ms, deadline_ms),
            r == old(self)@.shutdown_answer(now_ms, deadline_ms),
    {
        proof {
            lemma_shutdown_is_bounded(self@, now_ms, deadline_ms);
        }
        match self.phase {
            Phase::Closed => ShutdownStatus::Closed { stop_service: self.spawned },
            _ => {
                self.dispatcher.finish_all(0, now_ms, deadline_ms);
                if self.dispatcher.all_at_rest() {
                    self.conn.close();
                    self.phase = Phase::Closed;
                    ShutdownStatus::Closed { stop_service: self.spawned }
                } else {
                    ShutdownStatus::Draining { remaining_ms: deadline_ms - now_ms }
                }
            },
        }
    }

    /// Forgets a run that is at rest and hands it out with its queue, so
    /// that what it never wrote can still be looked at. A run that is not at
    /// rest is kept.
    pub fn evict(&mut self, run: &Run) -> (r: Option<Lane>)
        requires
            old(self).wf(),
        ensures
            final(self).wf(),
            final(self)@ == old(self)@.evict(run.spec_id()),
            match old(self)@.runs.index_of(run.spec_id()) {
                Some(i) => if old(self)@.runs.lanes[i].evictable() {
                    r is Some && r.unwrap()@ == old(self)@.runs.lanes[i] && r.unwrap().wf()
                } else {
                    r is None
                },
                None => r is None,
            },
    {
        proof {
            if self@.runs.all_at_rest() {
                lemma_rest_is_kept(self@.runs, run.spec_id());
            }
        }
        self.dispatcher.evict(run.id)
    }

    /// The run `id` as the dispatcher holds it.
    pub fn lane(&self, id: u64) -> (r: Option<&Lane>)
        requires
            self.wf(),
        ensures
            match self@.runs.index_of(id) {
                Some(i) => r is Some && r.unwrap()@ == self@.runs.lanes[i] && r.unwrap().wf(),
                None => r is None,
            },
    {
        match self.dispatcher.find(id) {
            Some(i) => Some(self.dispatcher.lane(i)),
            None => None,
        }
    }

    /// Where the session stands with its service.
    pub fn phase(&self) -> (p: Phase)
        ensures
            p == self@.phase,
    {
        self.phase
    }

    /// The session's channel.
    pub fn connection(&self) -> (c: &Connection)
        ensures
            c@ == self@.conn,
    {
        &self.conn
    }

    /// The session's runs.
    pub fn dispatcher(&self) -> (d: &Dispatcher)
        ensures
            d@ == self@.runs,
            self.wf() ==> d.wf(),
    {
        &self.dispatcher
    }

    /// The endpoint of the service, once the launcher has found one: the
    /// address that the caller connects to, and the process id of the
    /// service if this client started it.
    pub fn endpoint(&self, address: String) -> (r: Option<ServiceEndpoint>)
        ensures
            match self@.launch {
                LaunchState::Ready { spawned } => r == Some(ServiceEndpoint { address, spawned }),
                _ => r is None,
            },
    {
        self.launcher.endpoint(address)
    }
}

} // verus!
