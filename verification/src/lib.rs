//! Client side of an experiment-tracking service: the session, connection and
//! run subsystem, as state machines over plain values.
//!
//! The library decides; its caller performs. Every operation that would touch
//! a socket, a child process or a clock takes the outcome of that step as an
//! argument and returns what to do next.

use vstd::prelude::*;
use crate::connection::ConnView;
use crate::dispatcher::DispatcherView;
use crate::launcher::{spec_max_polls, LaunchState};
use crate::run::RunState;
use crate::session::{Phase, Run, Session, SessionView};
use crate::settings::{
    BackoffPolicy, OverflowPolicy, Settings, DEFAULT_BACKOFF_ATTEMPTS, DEFAULT_BACKOFF_BASE_MS,
    DEFAULT_BACKOFF_CAP_MS, DEFAULT_BLOCK_TIMEOUT_MS, DEFAULT_QUEUE_CAPACITY,
    DEFAULT_SPAWN_TIMEOUT_MS,
};

pub mod connection;
pub mod dispatcher;
pub mod frame;
pub mod lane;
pub mod launcher;
pub mod queue;
pub mod record;
pub mod run;
pub mod session;
pub mod settings;
pub mod wire;

verus! {

/// The settings used when the caller gives none.
pub open spec fn spec_default_settings() -> Settings {
    Settings {
        service_address: None,
        spawn_timeout_ms: DEFAULT_SPAWN_TIMEOUT_MS,
        queue_capacity: DEFAULT_QUEUE_CAPACITY,
        backoff: BackoffPolicy {
            base_ms: DEFAULT_BACKOFF_BASE_MS,
            cap_ms: DEFAULT_BACKOFF_CAP_MS,
            max_attempts: DEFAULT_BACKOFF_ATTEMPTS,
        },
        overflow: OverflowPolicy::Block { timeout_ms: DEFAULT_BLOCK_TIMEOUT_MS },
    }
}

/// The session that `init` makes of `settings`, before its run is opened.
pub open spec fn spec_fresh_session(settings: Settings) -> SessionView {
    SessionView {
        phase: Phase::Idle,
        runs: DispatcherView::empty(),
        conn: ConnView::idle(settings.backoff),
        launch: LaunchState::Idle,
        has_address: settings.service_address is Some,
        poll_budget: spec_max_polls(settings.spawn_timeout_ms),
        spawned: None,
        capacity: settings.queue_capacity as nat,
        overflow: settings.overflow,
    }
}

/// Makes a session with `settings`, or with the standard settings where none
/// are given, and opens its first run. The session is handed out with the
/// run: it is what the caller polls, and what every operation on the run
/// goes through. The run has the id 0 and is `Active`, and the session waits
/// for its service to be launched.
pub fn init(settings: Option<Settings>) -> (r: (Session, Run))
    ensures
        r.0.wf(),
        r.1.id == 0,
        r.0@ == spec_fresh_session(
            match settings {
                Some(s) => s,
                None => spec_default_settings(),
            },
        ).init_run(
            match settings {
                Some(s) => s.queue_capacity as nat,
                None => DEFAULT_QUEUE_CAPACITY as nat,
            },
            match settings {
                Some(s) => s.overflow,
                None => (OverflowPolicy::Block { timeout_ms: DEFAULT_BLOCK_TIMEOUT_MS }),
            },
        ),
        r.0@.phase == Phase::Launching,
        r.0@.runs.lanes.len() == 1,
        r.0@.runs.lanes[0].id == 0,
        r.0@.runs.lanes[0].state == RunState::Active,
        r.0@.runs.lanes[0].trace == seq![RunState::Created, RunState::Starting, RunState::Active],
{
    let actual = match settings {
        Some(s) => s,
        None => Settings::new(None, None, None, None, None),
    };
    let mut session = Session::new(actual);
    proof {
        crate::dispatcher::lemma_register_keeps_wf(
            session@.runs,
            session@.capacity,
            session@.overflow,
            None,
        );
    }
    let run = match session.init_run(None) {
        Ok(run) => run,
        Err(_) => Run { id: 0 },
    };
    (session, run)
}

} // verus!
