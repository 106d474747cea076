//! Finding or starting the service. The launcher decides what to try next;
//! its caller probes, spawns and polls, and reports what it saw.

use vstd::prelude::*;
use crate::settings::Settings;

verus! {

/// Pause between two looks at a service that is starting.
pub const POLL_INTERVAL_MS: u64 = 100;

/// Why no service could be reached.
#[derive(Clone, Copy, PartialEq, Eq, Structural, Debug)]
pub enum LaunchError {
    /// The service executable is missing.
    NotFound,
    /// The service was started and did not become ready in time.
    BindTimeout,
    /// The service was started and exited before it was ready.
    CrashedOnStartup { exit_code: i32 },
}

/// Where the service is, and whether this client started it.
#[derive(Clone, PartialEq, Eq, Debug)]
pub struct ServiceEndpoint {
    /// Socket path or host and port; not looked into here.
    pub address: String,
    /// Process id of the service, if this client started it.
    pub spawned: Option<u32>,
}

/// What a look at a starting service showed.
#[derive(Clone, Copy, PartialEq, Eq, Structural, Debug)]
pub enum Readiness {
    Ready,
    NotReady,
    /// The process is gone.
    Exited { exit_code: i32 },
}

/// What the caller reports to the launcher.
#[derive(Clone, Copy, PartialEq, Eq, Structural, Debug)]
pub enum LaunchEvent {
    /// An endpoint is wanted.
    Start,
    /// The configured address was tried.
    Probed { reachable: bool },
    /// The executable could not be found.
    SpawnFailed,
    /// The service was started.
    Spawned { pid: u32 },
    /// The started service was looked at.
    Polled(Readiness),
}

/// What the launcher asks of its caller.
#[derive(Clone, Copy, PartialEq, Eq, Structural, Debug)]
pub enum LaunchAction {
    /// Try the configured address and report `Probed`.
    Probe,
    /// Start the service and report `Spawned` or `SpawnFailed`.
    Spawn,
    /// Pause, look at the service and report `Polled`.
    Poll { delay_ms: u64 },
    /// Done: use the service at the configured address.
    Attach,
    /// Done: use the service that was started.
    Adopt { pid: u32 },
    /// Done: no service can be had.
    Fail(LaunchError),
    /// The event has no place here; nothing changed.
    Ignore,
}

/// Where the launcher stands.
#[derive(Clone, Copy, PartialEq, Eq, Structural, Debug)]
pub enum LaunchState {
    Idle,
    Probing,
    Spawning,
    /// Waiting for the started service, with this many looks left.
    Waiting { pid: u32, polls_left: u32 },
    /// A service is at hand; `spawned` is its process id if it was started
    /// here.
    Ready { spawned: Option<u32> },
    Failed(LaunchError),
}

/// Looks at a starting service that fit into `spawn_timeout_ms`.
pub open spec fn spec_max_polls(spawn_timeout_ms: u64) -> u32 {
    if spawn_timeout_ms / POLL_INTERVAL_MS > u32::MAX {
        u32::MAX
    } else {
        (spawn_timeout_ms / POLL_INTERVAL_MS) as u32
    }
}

/// The launcher's next state and request, given where it stands and what was
/// reported. A configured address is tried first and attached to if it
/// answers; otherwise the service is started and looked at until it is
/// ready, has exited, or the looks are used up.
pub open spec fn spec_launch_step(
    state: LaunchState,
    event: LaunchEvent,
    has_address: bool,
    max_polls: u32,
) -> (LaunchState, LaunchAction) {
    match (state, event) {
        (LaunchState::Idle, LaunchEvent::Start) => if has_address {
            (LaunchState::Probing, LaunchAction::Probe)
        } else {
            (LaunchState::Spawning, LaunchAction::Spawn)
        },
        (LaunchState::Probing, LaunchEvent::Probed { reachable }) => if reachable {
            (LaunchState::Ready { spawned: None }, LaunchAction::Attach)
        } else {
            (LaunchState::Spawning, LaunchAction::Spawn)
        },
        (LaunchState::Spawning, LaunchEvent::SpawnFailed) => (
            LaunchState::Failed(LaunchError::NotFound),
            LaunchAction::Fail(LaunchError::NotFound),
        ),
        (LaunchState::Spawning, LaunchEvent::Spawned { pid }) => if max_polls == 0 {
            (
                LaunchState::Failed(LaunchError::BindTimeout),
                LaunchAction::Fail(LaunchError::BindTimeout),
            )
        } else {
            (
                LaunchState::Waiting { pid, polls_left: max_polls },
                LaunchAction::Poll { delay_ms: POLL_INTERVAL_MS },
            )
        },
        (LaunchState::Waiting { pid, polls_left }, LaunchEvent::Polled(seen)) => match seen {
            Readiness::Ready => (LaunchState::Ready { spawned: Some(pid) }, LaunchAction::Adopt { pid }),
            Readiness::Exited { exit_code } => (
                LaunchState::Failed(LaunchError::CrashedOnStartup { exit_code }),
                LaunchAction::Fail(LaunchError::CrashedOnStartup { exit_code }),
            ),
            Readiness::NotReady => if polls_left <= 1 {
                (
                    LaunchState::Failed(LaunchError::BindTimeout),
                    LaunchAction::Fail(LaunchError::BindTimeout),
                )
            } else {
                (
                    LaunchState::Waiting { pid, polls_left: (polls_left - 1) as u32 },
                    LaunchAction::Poll { delay_ms: POLL_INTERVAL_MS },
                )
            },
        },
        _ => (state, LaunchAction::Ignore),
    }
}

/// Looks that the launcher may still ask for before it fails with
/// `BindTimeout`.
pub open spec fn spec_polls_left(state: LaunchState) -> nat {
    match state {
        LaunchState::Waiting { pid, polls_left } => polls_left as nat,
        _ => 0,
    }
}

/// Whether the launcher has come to rest.
pub open spec fn spec_launch_done(state: LaunchState) -> bool {
    state is Ready || state is Failed
}

/// The wait for a started service is bounded: every look that finds it not
/// ready uses up one of the looks allowed, and the launcher asks for another
/// only while one is left.
pub proof fn lemma_polls_are_bounded(
    state: LaunchState,
    has_address: bool,
    max_polls: u32,
)
    requires
        state is Waiting,
    ensures
        ({
            let (next, action) = spec_launch_step(
                state,
                LaunchEvent::Polled(Readiness::NotReady),
                has_address,
                max_polls,
            );
            if action is Poll {
                spec_polls_left(next) + 1 == spec_polls_left(state)
            } else {
                action == LaunchAction::Fail(LaunchError::BindTimeout) && next
                    == LaunchState::Failed(LaunchError::BindTimeout)
            }
        }),
{
}

/// Once the launcher is done, nothing reported to it changes the outcome.
pub proof fn lemma_launch_outcome_is_final(
    state: LaunchState,
    event: LaunchEvent,
    has_address: bool,
    max_polls: u32,
)
    requires
        spec_launch_done(state),
    ensures
        spec_launch_step(state, event, has_address, max_polls) == (state, LaunchAction::Ignore),
{
}

/// A service is attached to without starting one exactly when the configured
/// address answers; nothing is started while a configured address has not
/// been tried.
pub proof fn lemma_attach_needs_no_spawn(has_address: bool, max_polls: u32, reachable: bool)
    requires
        has_address,
    ensures
        ({
            let (s1, a1) = spec_launch_step(
                LaunchState::Idle,
                LaunchEvent::Start,
                has_address,
                max_polls,
            );
            let (s2, a2) = spec_launch_step(
                s1,
                LaunchEvent::Probed { reachable },
                has_address,
                max_polls,
            );
            &&& a1 == LaunchAction::Probe
            &&& reachable ==> a2 == LaunchAction::Attach && s2 == (LaunchState::Ready {
                spawned: None,
            })
            &&& !reachable ==> a2 == LaunchAction::Spawn && s2 == LaunchState::Spawning
        }),
{
}

/// Whether `b` is a decimal digit.
pub open spec fn spec_is_digit(b: u8) -> bool {
    0x30 <= b <= 0x39
}

/// Whether `b` is a blank: a space, a tab or an end of line.
pub open spec fn spec_is_blank(b: u8) -> bool {
    b == 0x20 || 0x09 <= b <= 0x0d
}

/// How many decimal digits `s` begins with.
pub open spec fn spec_leading_digits(s: Seq<u8>) -> nat
    decreases s.len(),
{
    if s.len() > 0 && spec_is_digit(s[0]) {
        1 + spec_leading_digits(s.drop_first())
    } else {
        0
    }
}

/// The number that the decimal digits `s` stand for.
pub open spec fn spec_decimal(s: Seq<u8>) -> nat
    decreases s.len(),
{
    if s.len() == 0 {
        0
    } else {
        10 * spec_decimal(s.drop_last()) + (s.last() - 0x30) as nat
    }
}

/// The port that a started service announces in its readiness file: decimal
/// digits at the start of the file, followed by nothing but blanks, that
/// stand for a number from 1 to 65535. A file that holds anything else, as
/// a file that is still being written may, announces nothing.
pub open spec fn spec_announced_port(text: Seq<u8>) -> Option<u16> {
    let n = spec_leading_digits(text);
    let value = spec_decimal(text.subrange(0, n as int));
    if n == 0 {
        None
    } else if exists|i: int| n <= i < text.len() && !spec_is_blank(#[trigger] text[i]) {
        None
    } else if value == 0 || value > u16::MAX {
        None
    } else {
        Some(value as u16)
    }
}

/// A text begins with exactly `n` digits when its first `n` bytes are digits
/// and the next byte, if there is one, is none.
pub proof fn lemma_leading_digits(s: Seq<u8>, n: int)
    requires
        0 <= n <= s.len(),
        forall|j: int| 0 <= j < n ==> spec_is_digit(#[trigger] s[j]),
        n == s.len() || !spec_is_digit(s[n]),
    ensures
        spec_leading_digits(s) == n,
    decreases n,
{
    if n > 0 {
        let t = s.drop_first();
        assert forall|j: int| 0 <= j < n - 1 implies spec_is_digit(#[trigger] t[j]) by {
            assert(t[j] == s[j + 1]);
        }
        lemma_leading_digits(t, n - 1);
    }
}

/// Reads the port that a started service announces in its readiness file.
pub fn announced_port(text: &[u8]) -> (r: Option<u16>)
    ensures
        r == spec_announced_port(text@),
{
    let len: usize = text.len();
    let mut value: u32 = 0;
    let mut i: usize = 0;
    while i < len && 0x30 <= text[i] && text[i] <= 0x39
        invariant
            i <= len,
            len == text@.len(),
            forall|j: int| 0 <= j < i ==> spec_is_digit(#[trigger] text@[j]),
            value == if spec_decimal(text@.subrange(0, i as int)) > u16::MAX {
                0x1_0000
            } else {
                spec_decimal(text@.subrange(0, i as int))
            },
        decreases len - i,
    {
        proof {
            assert(text@.subrange(0, i + 1).drop_last() =~= text@.subrange(0, i as int));
        }
        let digit: u32 = (text[i] - 0x30) as u32;
        let next: u32 = value * 10 + digit;
        value = if next > 0xFFFF {
            0x1_0000
        } else {
            next
        };
        i = i + 1;
    }
    let digits: usize = i;
    proof {
        lemma_leading_digits(text@, digits as int);
    }
    if digits == 0 {
        return None;
    }
    while i < len
        invariant
            0 < digits <= i <= len,
            len == text@.len(),
            spec_leading_digits(text@) == digits,
            value == if spec_decimal(text@.subrange(0, digits as int)) > u16::MAX {
                0x1_0000
            } else {
                spec_decimal(text@.subrange(0, digits as int))
            },
            forall|j: int| digits <= j < i ==> spec_is_blank(#[trigger] text@[j]),
        decreases len - i,
    {
        let b: u8 = text[i];
        if !(b == 0x20 || (0x09 <= b && b <= 0x0d)) {
            assert(!spec_is_blank(text@[i as int]));
            return None;
        }
        i = i + 1;
    }
    if value == 0 || value > 0xFFFF {
        None
    } else {
        Some(value as u16)
    }
}

/// Finds or starts the service, one step at a time.
pub struct Launcher {
    state: LaunchState,
    has_address: bool,
    max_polls: u32,
}

impl Launcher {
    /// Where the launcher stands.
    pub closed spec fn spec_state(&self) -> LaunchState {
        self.state
    }

    /// Whether an address was configured.
    pub closed spec fn spec_has_address(&self) -> bool {
        self.has_address
    }

    /// Looks at a starting service that the launcher allows.
    pub closed spec fn spec_poll_budget(&self) -> u32 {
        self.max_polls
    }

    /// A launcher that has done nothing yet. `has_address` says whether a
    /// service address was configured; `spawn_timeout_ms` bounds the wait for
    /// a service that had to be started.
    pub fn new(has_address: bool, spawn_timeout_ms: u64) -> (l: Launcher)
        ensures
            l.spec_state() == LaunchState::Idle,
            l.spec_has_address() == has_address,
            l.spec_poll_budget() == spec_max_polls(spawn_timeout_ms),
    {
        let polls: u64 = spawn_timeout_ms / POLL_INTERVAL_MS;
        let max_polls: u32 = if polls > u32::MAX as u64 {
            u32::MAX
        } else {
            polls as u32
        };
        Launcher { state: LaunchState::Idle, has_address, max_polls }
    }

    /// The launcher that `settings` ask for.
    pub fn for_settings(settings: &Settings) -> (l: Launcher)
        ensures
            l.spec_state() == LaunchState::Idle,
            l.spec_has_address() == settings.service_address is Some,
            l.spec_poll_budget() == spec_max_polls(settings.spawn_timeout_ms),
    {
        Launcher::new(settings.service_address.is_some(), settings.spawn_timeout_ms)
    }

    /// Where the launcher stands.
    #[verifier::when_used_as_spec(spec_state)]
    pub fn state(&self) -> (s: LaunchState)
        ensures
            s == self.spec_state(),
    {
        self.state
    }

    /// Takes in what the caller saw and says what to do next.
    pub fn ensure_endpoint(&mut self, event: LaunchEvent) -> (action: LaunchAction)
        ensures
            final(self).spec_has_address() == old(self).spec_has_address(),
            final(self).spec_poll_budget() == old(self).spec_poll_budget(),
            (final(self).spec_state(), action) == spec_launch_step(
                old(self).spec_state(),
                event,
                old(self).spec_has_address(),
                old(self).spec_poll_budget(),
            ),
    {
        let (next, action) = match self.state {
            LaunchState::Idle => match event {
                LaunchEvent::Start => if self.has_address {
                    (LaunchState::Probing, LaunchAction::Probe)
                } else {
                    (LaunchState::Spawning, LaunchAction::Spawn)
                },
                _ => (self.state, LaunchAction::Ignore),
            },
            LaunchState::Probing => match event {
                LaunchEvent::Probed { reachable } => if reachable {
                    (LaunchState::Ready { spawned: None }, LaunchAction::Attach)
                } else {
                    (LaunchState::Spawning, LaunchAction::Spawn)
                },
                _ => (self.state, LaunchAction::Ignore),
            },
            LaunchState::Spawning => match event {
                LaunchEvent::SpawnFailed => Launcher::give_up(LaunchError::NotFound),
                LaunchEvent::Spawned { pid } => if self.max_polls == 0 {
                    Launcher::give_up(LaunchError::BindTimeout)
                } else {
                    (
                        LaunchState::Waiting { pid, polls_left: self.max_polls },
                        LaunchAction::Poll { delay_ms: POLL_INTERVAL_MS },
                    )
                },
                _ => (self.state, LaunchAction::Ignore),
            },
            LaunchState::Waiting { pid, polls_left } => match event {
                LaunchEvent::Polled(Readiness::Ready) => (
                    LaunchState::Ready { spawned: Some(pid) },
                    LaunchAction::Adopt { pid },
                ),
                LaunchEvent::Polled(Readiness::Exited { exit_code }) => Launcher::give_up(
                    LaunchError::CrashedOnStartup { exit_code },
                ),
                LaunchEvent::Polled(Readiness::NotReady) => if polls_left <= 1 {
                    Launcher::give_up(LaunchError::BindTimeout)
                } else {
                    (
                        LaunchState::Waiting { pid, polls_left: polls_left - 1 },
                        LaunchAction::Poll { delay_ms: POLL_INTERVAL_MS },
                    )
                },
                _ => (self.state, LaunchAction::Ignore),
            },
            _ => (self.state, LaunchAction::Ignore),
        };
        self.state = next;
        action
    }

    fn give_up(err: LaunchError) -> (r: (LaunchState, LaunchAction))
        ensures
            r == (LaunchState::Failed(err), LaunchAction::Fail(err)),
    {
        (LaunchState::Failed(err), LaunchAction::Fail(err))
    }

    /// The endpoint that was found, once the launcher is ready: the given
    /// address, and the process id of the service if it was started here.
    pub fn endpoint(&self, address: String) -> (r: Option<ServiceEndpoint>)
        ensures
            match self.spec_state() {
                LaunchState::Ready { spawned } => r == Some(ServiceEndpoint { address, spawned }),
                _ => r is None,
            },
    {
        match self.state {
            LaunchState::Ready { spawned } => Some(ServiceEndpoint { address, spawned }),
            _ => None,
        }
    }

    /// Why the launcher failed, if it did.
    pub fn error(&self) -> (r: Option<LaunchError>)
        ensures
            match self.spec_state() {
                LaunchState::Failed(e) => r == Some(e),
                _ => r is None,
            },
    {
        match self.state {
            LaunchState::Failed(e) => Some(e),
            _ => None,
        }
    }
}

} // verus!
