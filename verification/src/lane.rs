//! One run as the dispatcher holds it: its state, the states it has passed,
//! and its queue.

use vstd::prelude::*;
use crate::connection::ConnError;
use crate::launcher::LaunchError;
use crate::queue::{QueueError, QueueOp, QueueView, RunQueue};
use crate::record::{exit_payload, spec_exit_payload, Record, RecordKind, RecordView};
use crate::run::{lemma_trace_extends, spec_valid_trace, RunState};
use crate::settings::OverflowPolicy;

verus! {

/// Why a run was given up.
#[derive(Clone, Copy, PartialEq, Eq, Structural, Debug)]
pub enum Failure {
    /// The transport was lost for good.
    Transport(ConnError),
    /// No service could be found or started.
    Launch(LaunchError),
    /// The run was asked to finish and its queue was not emptied in time.
    FinishTimeout,
}

/// Why an operation on a run was refused.
#[derive(Clone, Copy, PartialEq, Eq, Structural, Debug)]
pub enum RunError {
    /// The operation has no place in the state that the run is in.
    InvalidState(RunState),
    /// The queue was full and stayed full for as long as the caller was
    /// allowed to wait.
    QueueOverflow,
    /// The payload does not fit a frame.
    PayloadTooLarge,
    /// The run has used up its sequence numbers.
    SequenceExhausted,
    /// The run failed because the transport was lost.
    Transport(ConnError),
    /// The run failed because no service could be had.
    Launch(LaunchError),
    /// The session holds no run of this id.
    UnknownRun,
    /// The session has used up its run ids.
    RegistryFull,
}

/// What became of a record that was logged.
#[derive(Clone, Copy, PartialEq, Eq, Structural, Debug)]
pub enum LogOutcome {
    /// The record is in the queue, under this sequence number.
    Queued { seq: u64 },
    /// The queue was full and the record was discarded and counted.
    Dropped,
    /// The queue is full. The caller is to wait, at most this long, and log
    /// the record again.
    Wait { remaining_ms: u64 },
}

/// What `log` reports.
#[derive(Clone, Copy, PartialEq, Eq, Structural, Debug)]
pub enum LogKind {
    Metric,
    Summary,
}

impl LogKind {
    /// The kind of record that carries the report.
    pub open spec fn spec_record_kind(self) -> RecordKind {
        match self {
            LogKind::Metric => RecordKind::MetricPoint,
            LogKind::Summary => RecordKind::Summary,
        }
    }

    /// The kind of record that carries the report.
    #[verifier::when_used_as_spec(spec_record_kind)]
    pub fn record_kind(self) -> (k: RecordKind)
        ensures
            k == self.spec_record_kind(),
    {
        match self {
            LogKind::Metric => RecordKind::MetricPoint,
            LogKind::Summary => RecordKind::Summary,
        }
    }
}

/// Whether `later` begins with `earlier`.
pub open spec fn spec_extends(earlier: Seq<RunState>, later: Seq<RunState>) -> bool {
    earlier.len() <= later.len() && later.subrange(0, earlier.len() as int) == earlier
}

/// A run, as the dispatcher holds it, as a mathematical value.
pub struct LaneView {
    pub id: u64,
    pub state: RunState,
    /// The states entered so far, `state` last.
    pub trace: Seq<RunState>,
    /// Why the run failed, if it did.
    pub cause: Option<Failure>,
    pub overflow: OverflowPolicy,
    pub queue: QueueView,
}

impl LaneView {
    /// A run that has just been registered.
    pub open spec fn created(id: u64, capacity: nat, overflow: OverflowPolicy) -> LaneView {
        LaneView {
            id,
            state: RunState::Created,
            trace: seq![RunState::Created],
            cause: None,
            overflow,
            queue: QueueView::empty(id, capacity),
        }
    }

    /// What holds of a run at all times.
    pub open spec fn wf(self) -> bool {
        &&& self.queue.wf()
        &&& self.queue.run_id == self.id
        &&& spec_valid_trace(self.trace)
        &&& self.trace[self.trace.len() - 1] == self.state
        &&& self.cause is Some <==> self.state is Failed
        &&& (self.state is Created || self.state is Starting) ==> self.queue.history.len()
            <= u64::MAX - 2
        &&& self.state is Active ==> self.queue.history.len() <= u64::MAX - 1
        &&& forall|i: int|
            0 <= i < self.queue.history.len() && (#[trigger] self.queue.history[i]).kind is RunExit
                ==> i == self.queue.history.len() - 1 && (self.state is Finishing
                || self.state is Finished || self.state is Failed)
        &&& (self.state is Finishing || self.state is Finished) ==> self.queue.history.len() > 0
            && self.queue.history[self.queue.history.len() - 1].kind is RunExit
        &&& self.state is Finished ==> self.queue.drained()
        &&& self.state is Finishing ==> !self.queue.drained()
    }

    /// The run in the state `next`, which it enters now.
    pub open spec fn enter(self, next: RunState) -> LaneView {
        LaneView { state: next, trace: self.trace.push(next), ..self }
    }

    /// The run after the session began to open it.
    pub open spec fn start(self) -> LaneView {
        if self.state is Created {
            self.enter(RunState::Starting)
        } else {
            self
        }
    }

    /// The run after its opening record was queued: it is `Active`, and the
    /// record, a `Telemetry` record without payload, is the last in its
    /// queue.
    pub open spec fn activate(self) -> LaneView {
        if self.state is Starting {
            LaneView {
                queue: self.queue.offer(RecordKind::Telemetry, Seq::empty()),
                ..self.enter(RunState::Active)
            }
        } else {
            self
        }
    }

    /// The run given up for `cause`. A run that has come to rest stays as it
    /// is; its queue is kept either way.
    pub open spec fn fail(self, cause: Failure) -> LaneView {
        if self.state.spec_is_terminal() {
            self
        } else {
            LaneView { cause: Some(cause), ..self.enter(RunState::Failed) }
        }
    }

    /// The error with which a run that does not take an operation refuses
    /// it: the fault that ended the run, if one did; the state it is in
    /// otherwise.
    pub open spec fn refusal(self) -> RunError {
        match self.cause {
            Some(Failure::Transport(e)) => RunError::Transport(e),
            Some(Failure::Launch(e)) => RunError::Launch(e),
            _ => RunError::InvalidState(self.state),
        }
    }

    /// What becomes of a caller record in a state that takes it. With room
    /// in the queue it is queued. On a full queue the run's policy decides:
    /// the record is discarded and counted, or the caller is told to wait,
    /// and after the wait allowed is told that the queue overflowed.
    pub open spec fn submit(self, kind: RecordKind, payload: Seq<u8>, waited_ms: u64) -> (
        LaneView,
        Result<LogOutcome, RunError>,
    ) {
        match self.queue.admits(kind, payload.len()) {
            Ok(_) => (
                LaneView { queue: self.queue.offer(kind, payload), ..self },
                Ok(LogOutcome::Queued { seq: self.queue.history.len() as u64 }),
            ),
            Err(QueueError::TooLarge) => (self, Err(RunError::PayloadTooLarge)),
            Err(QueueError::Exhausted) => (self, Err(RunError::SequenceExhausted)),
            Err(QueueError::Full) => match self.overflow {
                OverflowPolicy::Drop => (
                    LaneView { queue: self.queue.discard(), ..self },
                    Ok(LogOutcome::Dropped),
                ),
                OverflowPolicy::Block { timeout_ms } => if waited_ms >= timeout_ms {
                    (self, Err(RunError::QueueOverflow))
                } else {
                    (self, Ok(LogOutcome::Wait { remaining_ms: (timeout_ms - waited_ms) as u64 }))
                },
            },
        }
    }

    /// The run and the answer after `log`: taken as `submit` says while the
    /// run is `Active`, refused in every other state.
    pub open spec fn log(self, kind: LogKind, payload: Seq<u8>, waited_ms: u64) -> (
        LaneView,
        Result<LogOutcome, RunError>,
    ) {
        if self.state.spec_accepts_log() {
            self.submit(kind.spec_record_kind(), payload, waited_ms)
        } else {
            (self, Err(self.refusal()))
        }
    }

    /// The run and the answer after `update_config`: taken as `submit` says
    /// while the run is `Starting` or `Active`, refused in every other state.
    pub open spec fn update_config(self, delta: Seq<u8>, waited_ms: u64) -> (
        LaneView,
        Result<LogOutcome, RunError>,
    ) {
        if self.state.spec_accepts_config() {
            self.submit(RecordKind::ConfigUpdate, delta, waited_ms)
        } else {
            (self, Err(self.refusal()))
        }
    }

    /// The run after a look at the clock: a run that is still `Finishing` at
    /// its deadline is given up.
    pub open spec fn expire(self, now_ms: u64, deadline_ms: u64) -> LaneView {
        if self.state is Finishing && now_ms >= deadline_ms {
            self.fail(Failure::FinishTimeout)
        } else {
            self
        }
    }

    /// The run after `finish`. An `Active` run queues its exit record, with
    /// the exit code and the time of the call, and is `Finishing`; a run
    /// that is `Finishing` already queues nothing more. Either is given up if
    /// the deadline has come. A run at rest stays as it is.
    pub open spec fn finish(self, exit_code: i32, now_ms: u64, deadline_ms: u64) -> LaneView {
        match self.state {
            RunState::Active => LaneView {
                queue: self.queue.offer(RecordKind::RunExit, spec_exit_payload(exit_code, now_ms)),
                ..self.enter(RunState::Finishing)
            }.expire(now_ms, deadline_ms),
            _ => self.expire(now_ms, deadline_ms),
        }
    }

    /// What `finish` answers: the state that the run is in after the call,
    /// or a refusal for a run that is not open yet.
    pub open spec fn finish_answer(self, exit_code: i32, now_ms: u64, deadline_ms: u64) -> Result<
        RunState,
        RunError,
    > {
        if self.state is Created || self.state is Starting {
            Err(RunError::InvalidState(self.state))
        } else {
            Ok(self.finish(exit_code, now_ms, deadline_ms).state)
        }
    }

    /// Whether the run has a record to write: a failed run writes no more.
    pub open spec fn ready(self) -> bool {
        !(self.state is Failed) && self.queue.head() is Some
    }

    /// The run after its head was written to the stream. A `Finishing` run
    /// whose last record this was is `Finished`. Nothing is noted for a
    /// failed run.
    pub open spec fn sent(self) -> LaneView {
        if !self.ready() {
            self
        } else if self.state is Finishing && self.queue.sent().drained() {
            LaneView { queue: self.queue.sent(), ..self.enter(RunState::Finished) }
        } else {
            LaneView { queue: self.queue.sent(), ..self }
        }
    }

    /// The run after the service acknowledged the record numbered `seq`.
    pub open spec fn acknowledge(self, seq: u64) -> LaneView {
        LaneView { queue: self.queue.acknowledge(seq), ..self }
    }

    /// Whether the run has been opened: it has left `Created` and
    /// `Starting` behind.
    pub open spec fn opened(self) -> bool {
        !(self.state is Created) && !(self.state is Starting)
    }

    /// Whether the run may be forgotten: it is at rest.
    pub open spec fn evictable(self) -> bool {
        self.state.spec_is_terminal()
    }
}

/// Opening a run keeps it in order and leads through `Starting` to `Active`,
/// with the opening record as the only one in its queue.
pub proof fn lemma_open_keeps_wf(l: LaneView)
    requires
        l.wf(),
    ensures
        l.start().wf(),
        l.activate().wf(),
        l == LaneView::created(l.id, l.queue.capacity, l.overflow) ==> l.start().activate().trace
            == seq![RunState::Created, RunState::Starting, RunState::Active]
            && l.start().activate().queue.history == seq![
            RecordView { kind: RecordKind::Telemetry, run_id: l.id, seq: 0, payload: Seq::empty() },
        ],
{
    if l.state is Created {
        lemma_trace_extends(l.trace, RunState::Starting);
    }
    if l.state is Starting {
        lemma_trace_extends(l.trace, RunState::Active);
    }
    if l == LaneView::created(l.id, l.queue.capacity, l.overflow) {
        assert(l.start().activate().trace =~= seq![
            RunState::Created,
            RunState::Starting,
            RunState::Active,
        ]);
        assert(l.start().activate().queue.history =~= seq![
            RecordView { kind: RecordKind::Telemetry, run_id: l.id, seq: 0, payload: Seq::empty() },
        ]);
    }
}

/// Giving a run up keeps it in order. A run that was at rest is not touched;
/// any other enters `Failed` this once, and its queue stays as it was.
pub proof fn lemma_fail_keeps_wf(l: LaneView, cause: Failure)
    requires
        l.wf(),
    ensures
        l.fail(cause).wf(),
        l.fail(cause).queue == l.queue,
        l.fail(cause).state.spec_is_terminal(),
        l.state.spec_is_terminal() ==> l.fail(cause) == l,
        !l.state.spec_is_terminal() ==> l.fail(cause).state is Failed && l.fail(cause).trace
            == l.trace.push(RunState::Failed) && l.fail(cause).cause == Some(cause),
{
    if !l.state.spec_is_terminal() {
        lemma_trace_extends(l.trace, RunState::Failed);
    }
}

/// Logging and configuring keep a run in order, leave its state alone and
/// add at most one record, behind all others.
pub proof fn lemma_submit_keeps_wf(l: LaneView, kind: RecordKind, payload: Seq<u8>, waited_ms: u64)
    requires
        l.wf(),
        kind.spec_is_data(),
        l.state is Starting || l.state is Active,
    ensures
        l.submit(kind, payload, waited_ms).0.wf(),
        l.submit(kind, payload, waited_ms).0.state == l.state,
        l.submit(kind, payload, waited_ms).0.trace == l.trace,
        l.submit(kind, payload, waited_ms).1 matches Ok(LogOutcome::Queued { seq }) ==> l.submit(
            kind,
            payload,
            waited_ms,
        ).0.queue.history == l.queue.history.push(l.queue.stamp(kind, payload)) && seq
            == l.queue.history.len(),
        !(l.submit(kind, payload, waited_ms).1 matches Ok(LogOutcome::Queued { seq })) ==> l.submit(
            kind,
            payload,
            waited_ms,
        ).0.queue.history == l.queue.history,
{
}

/// Finishing keeps a run in order.
pub proof fn lemma_finish_keeps_wf(l: LaneView, exit_code: i32, now_ms: u64, deadline_ms: u64)
    requires
        l.wf(),
    ensures
        l.finish(exit_code, now_ms, deadline_ms).wf(),
        l.expire(now_ms, deadline_ms).wf(),
{
    crate::record::lemma_exit_round_trip(exit_code, now_ms);
    lemma_fail_keeps_wf(l, Failure::FinishTimeout);
    if l.state is Active {
        let closing = LaneView {
            queue: l.queue.offer(RecordKind::RunExit, spec_exit_payload(exit_code, now_ms)),
            ..l.enter(RunState::Finishing)
        };
        lemma_trace_extends(l.trace, RunState::Finishing);
        assert(closing.wf());
        lemma_fail_keeps_wf(closing, Failure::FinishTimeout);
    }
}

/// `finish` is idempotent. A second call queues no further record, whatever
/// its arguments; the run's queue holds at most one exit record at any time;
/// and a run that the first call left at rest is left as it is by the
/// second, which answers with the same state.
pub proof fn lemma_finish_idempotent(
    l: LaneView,
    exit_code: i32,
    now_ms: u64,
    deadline_ms: u64,
    again_code: i32,
    again_ms: u64,
    again_deadline_ms: u64,
)
    requires
        l.wf(),
    ensures
        ({
            let once = l.finish(exit_code, now_ms, deadline_ms);
            let twice = once.finish(again_code, again_ms, again_deadline_ms);
            &&& twice.queue == once.queue
            &&& once.state.spec_is_terminal() ==> twice == once && once.finish_answer(
                again_code,
                again_ms,
                again_deadline_ms,
            ) == l.finish_answer(exit_code, now_ms, deadline_ms)
            &&& forall|i: int, j: int|
                0 <= i < twice.queue.history.len() && 0 <= j < twice.queue.history.len()
                    && (#[trigger] twice.queue.history[i]).kind is RunExit
                    && (#[trigger] twice.queue.history[j]).kind is RunExit ==> i == j
        }),
{
    lemma_finish_keeps_wf(l, exit_code, now_ms, deadline_ms);
    let once = l.finish(exit_code, now_ms, deadline_ms);
    lemma_finish_keeps_wf(once, again_code, again_ms, again_deadline_ms);
}

/// Noting a write keeps a run in order, and a `Finishing` run becomes
/// `Finished` exactly when the write empties its queue.
pub proof fn lemma_sent_keeps_wf(l: LaneView)
    requires
        l.wf(),
    ensures
        l.sent().wf(),
        l.sent().queue.history == l.queue.history,
        l.sent().state is Finished <==> l.state is Finished || (l.state is Finishing
            && l.queue.wired + 1 == l.queue.history.len()),
{
    if l.ready() && l.state is Finishing && l.queue.sent().drained() {
        lemma_trace_extends(l.trace, RunState::Finished);
    }
}

/// An acknowledgement keeps a run in order and changes neither its state nor
/// what it has queued or written.
pub proof fn lemma_acknowledge_keeps_wf(l: LaneView, seq: u64)
    requires
        l.wf(),
    ensures
        l.acknowledge(seq).wf(),
{
}

/// A run touches its queue only by the queue's own steps. Each operation on
/// a run leaves the queue as it was or takes one step with it: an offer, a
/// discard, the note of a write, or an acknowledgement. What holds of every
/// series of steps of a queue, its order above all, therefore holds of
/// everything that can be done to a run.
pub proof fn lemma_queue_moves_by_steps(
    l: LaneView,
    kind: LogKind,
    payload: Seq<u8>,
    waited_ms: u64,
    exit_code: i32,
    now_ms: u64,
    deadline_ms: u64,
    cause: Failure,
    seq: u64,
)
    requires
        l.wf(),
    ensures
        ({
            let q = l.log(kind, payload, waited_ms).0.queue;
            ||| q == l.queue
            ||| q == l.queue.step(QueueOp::Offer { kind: kind.spec_record_kind(), payload })
            ||| q == l.queue.step(QueueOp::Discard)
        }),
        ({
            let q = l.update_config(payload, waited_ms).0.queue;
            ||| q == l.queue
            ||| q == l.queue.step(QueueOp::Offer { kind: RecordKind::ConfigUpdate, payload })
            ||| q == l.queue.step(QueueOp::Discard)
        }),
        ({
            let q = l.finish(exit_code, now_ms, deadline_ms).queue;
            ||| q == l.queue
            ||| q == l.queue.step(
                QueueOp::Offer {
                    kind: RecordKind::RunExit,
                    payload: spec_exit_payload(exit_code, now_ms),
                },
            )
        }),
        ({
            let q = l.activate().queue;
            ||| q == l.queue
            ||| q == l.queue.step(
                QueueOp::Offer { kind: RecordKind::Telemetry, payload: Seq::empty() },
            )
        }),
        l.sent().queue == l.queue || l.sent().queue == l.queue.step(QueueOp::Sent),
        l.acknowledge(seq).queue == l.queue.step(QueueOp::Ack { seq }),
        l.start().queue == l.queue,
        l.fail(cause).queue == l.queue,
        l.expire(now_ms, deadline_ms).queue == l.queue,
{
}

/// A run at rest stays at rest. Whatever is asked of a run that is
/// `Finished` or `Failed`, it keeps its state, the states it has passed, and
/// the reason for which it failed, and takes no further record.
pub proof fn lemma_rest_is_final(
    l: LaneView,
    kind: LogKind,
    payload: Seq<u8>,
    waited_ms: u64,
    exit_code: i32,
    now_ms: u64,
    deadline_ms: u64,
    cause: Failure,
    seq: u64,
)
    requires
        l.wf(),
        l.state.spec_is_terminal(),
    ensures
        l.log(kind, payload, waited_ms).0 == l,
        l.log(kind, payload, waited_ms).1 is Err,
        l.update_config(payload, waited_ms).0 == l,
        l.update_config(payload, waited_ms).1 is Err,
        l.finish(exit_code, now_ms, deadline_ms) == l,
        l.finish_answer(exit_code, now_ms, deadline_ms) == Ok::<RunState, RunError>(l.state),
        l.expire(now_ms, deadline_ms) == l,
        l.fail(cause) == l,
        l.start() == l,
        l.activate() == l,
        l.sent().state == l.state,
        l.sent().trace == l.trace,
        l.sent().queue.history == l.queue.history,
        l.acknowledge(seq).state == l.state,
        l.acknowledge(seq).trace == l.trace,
        l.acknowledge(seq).queue.history == l.queue.history,
{
}

/// The past of a run is never rewritten. Whatever is asked of a run, the
/// states it has passed stay as they were, and at most new ones follow,
/// each reached from the one before it in a single step.
pub proof fn lemma_trace_only_grows(
    l: LaneView,
    kind: LogKind,
    payload: Seq<u8>,
    waited_ms: u64,
    exit_code: i32,
    now_ms: u64,
    deadline_ms: u64,
    cause: Failure,
    seq: u64,
)
    requires
        l.wf(),
    ensures
        spec_extends(l.trace, l.log(kind, payload, waited_ms).0.trace),
        spec_extends(l.trace, l.update_config(payload, waited_ms).0.trace),
        spec_extends(l.trace, l.finish(exit_code, now_ms, deadline_ms).trace),
        spec_extends(l.trace, l.expire(now_ms, deadline_ms).trace),
        spec_extends(l.trace, l.fail(cause).trace),
        spec_extends(l.trace, l.start().trace),
        spec_extends(l.trace, l.activate().trace),
        spec_extends(l.trace, l.sent().trace),
        spec_extends(l.trace, l.acknowledge(seq).trace),
        spec_valid_trace(l.finish(exit_code, now_ms, deadline_ms).trace),
        spec_valid_trace(l.sent().trace),
        spec_valid_trace(l.fail(cause).trace),
{
    lemma_finish_keeps_wf(l, exit_code, now_ms, deadline_ms);
    lemma_sent_keeps_wf(l);
    lemma_fail_keeps_wf(l, cause);
    assert(l.trace.subrange(0, l.trace.len() as int) =~= l.trace);
    assert(l.trace.push(RunState::Failed).subrange(0, l.trace.len() as int) =~= l.trace);
    assert(l.trace.push(RunState::Starting).subrange(0, l.trace.len() as int) =~= l.trace);
    assert(l.trace.push(RunState::Active).subrange(0, l.trace.len() as int) =~= l.trace);
    assert(l.trace.push(RunState::Finished).subrange(0, l.trace.len() as int) =~= l.trace);
    let closing = l.trace.push(RunState::Finishing);
    assert(closing.subrange(0, l.trace.len() as int) =~= l.trace);
    assert(closing.push(RunState::Failed).subrange(0, l.trace.len() as int) =~= l.trace);
}

/// One run as the dispatcher holds it.
pub struct Lane {
    id: u64,
    state: RunState,
    trace: Vec<RunState>,
    cause: Option<Failure>,
    overflow: OverflowPolicy,
    queue: RunQueue,
}

impl View for Lane {
    type V = LaneView;

    closed spec fn view(&self) -> LaneView {
        LaneView {
            id: self.id,
            state: self.state,
            trace: self.trace@,
            cause: self.cause,
            overflow: self.overflow,
            queue: self.queue@,
        }
    }
}

impl Lane {
    /// What the fields have to do with the value they stand for.
    pub closed spec fn fits(&self) -> bool {
        self.queue.fits()
    }

    /// Whether the run is in order.
    pub open spec fn wf(&self) -> bool {
        self.fits() && self@.wf()
    }

    /// A run that has just been registered under `id`.
    pub fn new(id: u64, capacity: usize, overflow: OverflowPolicy) -> (l: Lane)
        ensures
            l.wf(),
            l@ == LaneView::created(id, capacity as nat, overflow),
    {
        let mut trace: Vec<RunState> = Vec::new();
        trace.push(RunState::Created);
        let l = Lane {
            id,
            state: RunState::Created,
            trace,
            cause: None,
            overflow,
            queue: RunQueue::new(id, capacity),
        };
        assert(l@.trace =~= seq![RunState::Created]);
        l
    }

    fn enter(&mut self, next: RunState)
        ensures
            final(self)@ == old(self)@.enter(next),
            final(self).fits() == old(self).fits(),
    {
        self.state = next;
        self.trace.push(next);
    }

    /// Begins to open the run.
    pub fn start(&mut self)
        requires
            old(self).wf(),
        ensures
            final(self).wf(),
            final(self)@ == old(self)@.start(),
    {
        proof {
            lemma_open_keeps_wf(self@);
        }
        match self.state {
            RunState::Created => {
                self.enter(RunState::Starting);
            },
            _ => {},
        }
    }

    /// Queues the opening record and makes the run `Active`.
    pub fn activate(&mut self)
        requires
            old(self).wf(),
        ensures
            final(self).wf(),
            final(self)@ == old(self)@.activate(),
    {
        proof {
            lemma_open_keeps_wf(self@);
        }
        match self.state {
            RunState::Starting => {
                let empty: Vec<u8> = Vec::new();
                let _ = self.queue.enqueue(RecordKind::Telemetry, empty.as_slice());
                self.enter(RunState::Active);
            },
            _ => {},
        }
    }

    /// Gives the run up for `cause`, unless it is at rest already.
    pub fn fail(&mut self, cause: Failure)
        requires
            old(self).wf(),
        ensures
            final(self).wf(),
            final(self)@ == old(self)@.fail(cause),
    {
        proof {
            lemma_fail_keeps_wf(self@, cause);
        }
        if !self.state.is_terminal() {
            self.enter(RunState::Failed);
            self.cause = Some(cause);
        }
    }

    fn refusal(&self) -> (e: RunError)
        ensures
            e == self@.refusal(),
    {
        match self.cause {
            Some(Failure::Transport(e)) => RunError::Transport(e),
            Some(Failure::Launch(e)) => RunError::Launch(e),
            _ => RunError::InvalidState(self.state),
        }
    }

    fn submit(&mut self, kind: RecordKind, payload: &[u8], waited_ms: u64) -> (r: Result<
        LogOutcome,
        RunError,
    >)
        requires
            old(self).wf(),
            kind.spec_is_data(),
            old(self)@.state is Starting || old(self)@.state is Active,
        ensures
            final(self).wf(),
            (final(self)@, r) == old(self)@.submit(kind, payload@, waited_ms),
    {
        proof {
            lemma_submit_keeps_wf(self@, kind, payload@, waited_ms);
        }
        match self.queue.enqueue(kind, payload) {
            Ok(seq) => Ok(LogOutcome::Queued { seq }),
            Err(QueueError::TooLarge) => Err(RunError::PayloadTooLarge),
            Err(QueueError::Exhausted) => Err(RunError::SequenceExhausted),
            Err(QueueError::Full) => match self.overflow {
                OverflowPolicy::Drop => {
                    self.queue.note_dropped();
                    Ok(LogOutcome::Dropped)
                },
                OverflowPolicy::Block { timeout_ms } => if waited_ms >= timeout_ms {
                    Err(RunError::QueueOverflow)
                } else {
                    Ok(LogOutcome::Wait { remaining_ms: timeout_ms - waited_ms })
                },
            },
        }
    }

    /// Logs a record. `waited_ms` says how long the caller has waited for
    /// room for this record so far.
    pub fn log(&mut self, kind: LogKind, payload: &[u8], waited_ms: u64) -> (r: Result<
        LogOutcome,
        RunError,
    >)
        requires
            old(self).wf(),
        ensures
            final(self).wf(),
            (final(self)@, r) == old(self)@.log(kind, payload@, waited_ms),
    {
        if self.state.accepts_log() {
            self.submit(kind.record_kind(), payload, waited_ms)
        } else {
            Err(self.refusal())
        }
    }

    /// Queues a change of the run's configuration. `waited_ms` says how long
    /// the caller has waited for room for this record so far.
    pub fn update_config(&mut self, delta: &[u8], waited_ms: u64) -> (r: Result<
        LogOutcome,
        RunError,
    >)
        requires
            old(self).wf(),
        ensures
            final(self).wf(),
            (final(self)@, r) == old(self)@.update_config(delta@, waited_ms),
    {
        if self.state.accepts_config() {
            self.submit(RecordKind::ConfigUpdate, delta, waited_ms)
        } else {
            Err(self.refusal())
        }
    }

    /// Gives the run up if it is still `Finishing` at its deadline.
    pub fn expire(&mut self, now_ms: u64, deadline_ms: u64)
        requires
            old(self).wf(),
        ensures
            final(self).wf(),
            final(self)@ == old(self)@.expire(now_ms, deadline_ms),
    {
        proof {
            lemma_finish_keeps_wf(self@, 0, now_ms, deadline_ms);
        }
        match self.state {
            RunState::Finishing => {
                if now_ms >= deadline_ms {
                    self.fail(Failure::FinishTimeout);
                }
            },
            _ => {},
        }
    }

    /// Asks the run to end with `exit_code`. `now_ms` is the time of the
    /// call, `deadline_ms` the time by which the queue must be empty.
    /// Answers with the state that the run is in after the call.
    pub fn finish(&mut self, exit_code: i32, now_ms: u64, deadline_ms: u64) -> (r: Result<
        RunState,
        RunError,
    >)
        requires
            old(self).wf(),
        ensures
            final(self).wf(),
            final(self)@ == old(self)@.finish(exit_code, now_ms, deadline_ms),
            r == old(self)@.finish_answer(exit_code, now_ms, deadline_ms),
    {
        proof {
            lemma_finish_keeps_wf(self@, exit_code, now_ms, deadline_ms);
        }
        match self.state {
            RunState::Created | RunState::Starting => Err(RunError::InvalidState(self.state)),
            RunState::Active => {
                let payload = exit_payload(exit_code, now_ms);
                let _ = self.queue.enqueue(RecordKind::RunExit, payload.as_slice());
                self.enter(RunState::Finishing);
                proof {
                    lemma_trace_extends(old(self)@.trace, RunState::Finishing);
                }
                self.expire(now_ms, deadline_ms);
                Ok(self.state)
            },
            _ => {
                self.expire(now_ms, deadline_ms);
                Ok(self.state)
            },
        }
    }

    /// Whether the run has a record to write.
    pub fn is_ready(&self) -> (b: bool)
        requires
            self.wf(),
        ensures
            b == self@.ready(),
    {
        match self.state {
            RunState::Failed => false,
            _ => self.queue.unsent_len() > 0,
        }
    }

    /// The record to write next, if the run has one to write.
    pub fn head(&self) -> (r: Option<&Record>)
        requires
            self.wf(),
        ensures
            match r {
                Some(rec) => self@.ready() && Some(rec@) == self@.queue.head(),
                None => !self@.ready(),
            },
    {
        match self.state {
            RunState::Failed => None,
            _ => self.queue.head(),
        }
    }

    /// Notes that the head was written to the stream.
    pub fn mark_sent(&mut self)
        requires
            old(self).wf(),
        ensures
            final(self).wf(),
            final(self)@ == old(self)@.sent(),
    {
        proof {
            lemma_sent_keeps_wf(self@);
        }
        if self.is_ready() {
            let _ = self.queue.mark_sent();
            match self.state {
                RunState::Finishing => {
                    if self.queue.is_drained() {
                        self.enter(RunState::Finished);
                    }
                },
                _ => {},
            }
        }
    }

    /// Takes in an acknowledgement of the record numbered `seq`.
    pub fn acknowledge(&mut self, seq: u64)
        requires
            old(self).wf(),
        ensures
            final(self).wf(),
            final(self)@ == old(self)@.acknowledge(seq),
    {
        proof {
            lemma_acknowledge_keeps_wf(self@, seq);
        }
        let _ = self.queue.acknowledge(seq);
    }

    /// The id of the run.
    pub fn id(&self) -> (id: u64)
        ensures
            id == self@.id,
    {
        self.id
    }

    /// The state that the run is in.
    pub fn state(&self) -> (s: RunState)
        ensures
            s == self@.state,
    {
        self.state
    }

    /// Why the run failed, if it did.
    pub fn cause(&self) -> (c: Option<Failure>)
        ensures
            c == self@.cause,
    {
        self.cause
    }

    /// The states that the run has entered, in order.
    pub fn trace(&self) -> (t: Vec<RunState>)
        ensures
            t@ == self@.trace,
    {
        let mut out: Vec<RunState> = Vec::new();
        let mut i: usize = 0;
        while i < self.trace.len()
            invariant
                i <= self.trace@.len(),
                out@ == self.trace@.subrange(0, i as int),
            decreases self.trace@.len() - i,
        {
            out.push(self.trace[i]);
            assert(out@ =~= self.trace@.subrange(0, i + 1));
            i = i + 1;
        }
        assert(out@ =~= self.trace@);
        out
    }

    /// The run's queue.
    pub fn queue(&self) -> (q: &RunQueue)
        ensures
            q@ == self@.queue,
            self.wf() ==> q.wf(),
    {
        &self.queue
    }
}

} // verus!
