//! The life of a run: six states and the few steps between them.

use vstd::prelude::*;

verus! {

/// Where a run stands.
#[derive(Clone, Copy, PartialEq, Eq, Structural, Debug)]
pub enum RunState {
    /// Registered, nothing queued yet.
    Created,
    /// Being opened: its first record is about to be queued.
    Starting,
    /// Accepting records.
    Active,
    /// Closing: the exit record is queued, the queue is being emptied.
    Finishing,
    /// Closed in good order.
    Finished,
    /// Given up.
    Failed,
}

/// What can happen to a run.
#[derive(Clone, Copy, PartialEq, Eq, Structural, Debug)]
pub enum RunEvent {
    /// The session begins to open the run.
    Open,
    /// The run's first record has been queued.
    OpenQueued,
    /// The caller, or the session on its way down, asks the run to end.
    Finish,
    /// The exit record has been sent and nothing is left to send.
    Drained,
    /// The service cannot be reached any more, or a wait ran out.
    Fault,
}

impl RunState {
    /// Position of the state in the order in which states are passed.
    pub open spec fn rank(self) -> nat {
        match self {
            RunState::Created => 0,
            RunState::Starting => 1,
            RunState::Active => 2,
            RunState::Finishing => 3,
            RunState::Finished => 4,
            RunState::Failed => 5,
        }
    }

    /// Whether the run has come to rest.
    pub open spec fn spec_is_terminal(self) -> bool {
        self is Finished || self is Failed
    }

    /// The state that `event` leads to, or `None` where the event has no place
    /// in this state.
    pub open spec fn spec_apply(self, event: RunEvent) -> Option<RunState> {
        match (self, event) {
            (RunState::Created, RunEvent::Open) => Some(RunState::Starting),
            (RunState::Starting, RunEvent::OpenQueued) => Some(RunState::Active),
            (RunState::Active, RunEvent::Finish) => Some(RunState::Finishing),
            (RunState::Finishing, RunEvent::Drained) => Some(RunState::Finished),
            (RunState::Finished, _) => None,
            (RunState::Failed, _) => None,
            (_, RunEvent::Fault) => Some(RunState::Failed),
            _ => None,
        }
    }

    /// Whether a run may pass from `self` directly to `next`: one step ahead,
    /// or to `Failed` from any state that is not terminal.
    pub open spec fn spec_precedes(self, next: RunState) -> bool {
        if next is Failed {
            !self.spec_is_terminal()
        } else {
            next.rank() == self.rank() + 1
        }
    }

    /// Whether `log` is accepted in this state.
    pub open spec fn spec_accepts_log(self) -> bool {
        self is Active
    }

    /// Whether `update_config` is accepted in this state.
    pub open spec fn spec_accepts_config(self) -> bool {
        self is Starting || self is Active
    }

    /// Whether the run has come to rest.
    #[verifier::when_used_as_spec(spec_is_terminal)]
    pub fn is_terminal(self) -> (b: bool)
        ensures
            b == self.spec_is_terminal(),
    {
        match self {
            RunState::Finished | RunState::Failed => true,
            _ => false,
        }
    }

    /// Whether `log` is accepted in this state.
    #[verifier::when_used_as_spec(spec_accepts_log)]
    pub fn accepts_log(self) -> (b: bool)
        ensures
            b == self.spec_accepts_log(),
    {
        match self {
            RunState::Active => true,
            _ => false,
        }
    }

    /// Whether `update_config` is accepted in this state.
    #[verifier::when_used_as_spec(spec_accepts_config)]
    pub fn accepts_config(self) -> (b: bool)
        ensures
            b == self.spec_accepts_config(),
    {
        match self {
            RunState::Starting | RunState::Active => true,
            _ => false,
        }
    }

    /// Takes one step. `None` where `event` has no place in this state; the
    /// run then stays where it is.
    #[verifier::when_used_as_spec(spec_apply)]
    pub fn apply(self, event: RunEvent) -> (next: Option<RunState>)
        ensures
            next == self.spec_apply(event),
    {
        match self {
            RunState::Finished | RunState::Failed => None,
            RunState::Created => match event {
                RunEvent::Open => Some(RunState::Starting),
                RunEvent::Fault => Some(RunState::Failed),
                _ => None,
            },
            RunState::Starting => match event {
                RunEvent::OpenQueued => Some(RunState::Active),
                RunEvent::Fault => Some(RunState::Failed),
                _ => None,
            },
            RunState::Active => match event {
                RunEvent::Finish => Some(RunState::Finishing),
                RunEvent::Fault => Some(RunState::Failed),
                _ => None,
            },
            RunState::Finishing => match event {
                RunEvent::Drained => Some(RunState::Finished),
                RunEvent::Fault => Some(RunState::Failed),
                _ => None,
            },
        }
    }
}

/// Whether `trace` is a possible life of a run: it begins with `Created` and
/// each state follows from the one before it in a single step.
pub open spec fn spec_valid_trace(trace: Seq<RunState>) -> bool {
    &&& trace.len() >= 1
    &&& trace[0] is Created
    &&& forall|i: int| 0 <= i < trace.len() - 1 ==> (#[trigger] trace[i]).spec_precedes(trace[i + 1])
}

/// The life of a run that ends in good order.
pub open spec fn spec_normal_trace() -> Seq<RunState> {
    seq![
        RunState::Created,
        RunState::Starting,
        RunState::Active,
        RunState::Finishing,
        RunState::Finished,
    ]
}

/// Every step leads one state ahead or to `Failed`, and never back: the state
/// reached has a higher rank than the state left.
pub proof fn lemma_apply_advances(state: RunState, event: RunEvent)
    requires
        state.spec_apply(event) is Some,
    ensures
        state.spec_precedes(state.spec_apply(event).unwrap()),
        state.spec_apply(event).unwrap().rank() > state.rank(),
        !(state.spec_apply(event).unwrap() is Failed) ==> state.spec_apply(event).unwrap().rank()
            == state.rank() + 1,
{
}

/// Whatever one state may pass to directly, some event leads there.
pub proof fn lemma_precedes_is_a_step(state: RunState, next: RunState)
    requires
        state.spec_precedes(next),
    ensures
        exists|event: RunEvent| state.spec_apply(event) == Some(next),
{
    if next is Failed {
        assert(state.spec_apply(RunEvent::Fault) == Some(next));
    } else if state is Created {
        assert(state.spec_apply(RunEvent::Open) == Some(next));
    } else if state is Starting {
        assert(state.spec_apply(RunEvent::OpenQueued) == Some(next));
    } else if state is Active {
        assert(state.spec_apply(RunEvent::Finish) == Some(next));
    } else {
        assert(state.spec_apply(RunEvent::Drained) == Some(next));
    }
}

/// A run never leaves `Finished` or `Failed`: no event has a place there.
pub proof fn lemma_terminal_is_final(state: RunState, event: RunEvent)
    requires
        state.spec_is_terminal(),
    ensures
        state.spec_apply(event) is None,
        forall|next: RunState| !state.spec_precedes(next),
{
}

/// A life stays possible when it goes on with a state that its last state
/// may pass to.
pub proof fn lemma_trace_extends(trace: Seq<RunState>, next: RunState)
    requires
        spec_valid_trace(trace),
        trace[trace.len() - 1].spec_precedes(next),
    ensures
        spec_valid_trace(trace.push(next)),
{
    let longer = trace.push(next);
    assert forall|i: int| 0 <= i < longer.len() - 1 implies (#[trigger] longer[i]).spec_precedes(
        longer[i + 1],
    ) by {
        if i < trace.len() - 1 {
            assert(trace[i].spec_precedes(trace[i + 1]));
        }
    }
}

/// Along the life of a run the rank only grows: no state is entered twice,
/// and nothing follows a terminal state.
pub proof fn lemma_trace_advances(trace: Seq<RunState>, i: int, j: int)
    requires
        spec_valid_trace(trace),
        0 <= i < j < trace.len(),
    ensures
        trace[i].rank() < trace[j].rank(),
        trace[i] != trace[j],
        !trace[i].spec_is_terminal(),
    decreases j - i,
{
    assert(trace[j - 1].spec_precedes(trace[j]));
    if i < j - 1 {
        lemma_trace_advances(trace, i, j - 1);
    }
}

/// A life that holds no `Failed` passes the states one by one from `Created`.
proof fn lemma_ranks_in_step(trace: Seq<RunState>, i: int)
    requires
        spec_valid_trace(trace),
        0 <= i < trace.len(),
        !(trace[trace.len() - 1] is Failed),
    ensures
        trace[i].rank() == i,
    decreases i,
{
    if i > 0 {
        lemma_ranks_in_step(trace, i - 1);
        assert(trace[i - 1].spec_precedes(trace[i]));
        if i < trace.len() - 1 {
            lemma_trace_advances(trace, i, trace.len() - 1);
        }
    }
}

/// A run that reaches `Finished` has passed through every state before it,
/// each exactly once and in order.
pub proof fn lemma_finished_trace_is_normal(trace: Seq<RunState>)
    requires
        spec_valid_trace(trace),
        trace[trace.len() - 1] is Finished,
    ensures
        trace == spec_normal_trace(),
{
    let n = trace.len() as int;
    lemma_ranks_in_step(trace, n - 1);
    assert(n == 5);
    lemma_ranks_in_step(trace, 0);
    lemma_ranks_in_step(trace, 1);
    lemma_ranks_in_step(trace, 2);
    lemma_ranks_in_step(trace, 3);
    assert(trace =~= spec_normal_trace());
}

/// `Failed` is entered at most once, and only as the last state.
pub proof fn lemma_failed_once(trace: Seq<RunState>, i: int)
    requires
        spec_valid_trace(trace),
        0 <= i < trace.len(),
        trace[i] is Failed,
    ensures
        i == trace.len() - 1,
        forall|j: int| 0 <= j < trace.len() && j != i ==> !(#[trigger] trace[j] is Failed),
{
    if i < trace.len() - 1 {
        lemma_trace_advances(trace, i, trace.len() - 1);
    }
    assert forall|j: int| 0 <= j < trace.len() && j != i implies !(#[trigger] trace[j] is Failed) by {
        if j < i {
            lemma_trace_advances(trace, j, i);
        }
    }
}

} // verus!
