//! The dispatcher: the runs of one session side by side, and the order in
//! which their records go out over the one stream they share.

use vstd::prelude::*;
use crate::lane::{
    lemma_fail_keeps_wf, lemma_finish_keeps_wf, lemma_open_keeps_wf, lemma_sent_keeps_wf, Failure,
    Lane, LaneView, LogKind, LogOutcome, RunError,
};
use crate::record::{spec_open, Record, MAX_PAYLOAD_LEN};
use crate::run::RunState;
use crate::settings::OverflowPolicy;

verus! {

/// The dispatcher as a mathematical value.
pub struct DispatcherView {
    /// The runs, in the order in which they were registered.
    pub lanes: Seq<LaneView>,
    /// The place in `lanes` at which the search for the next record begins.
    pub cursor: nat,
    /// The id that the next run gets.
    pub next_id: u64,
}

impl DispatcherView {
    /// A dispatcher without runs.
    pub open spec fn empty() -> DispatcherView {
        DispatcherView { lanes: Seq::empty(), cursor: 0, next_id: 0 }
    }

    /// Every run is in order and has been opened, ids grow in the order of
    /// registration and are never given twice, and the cursor is within the
    /// runs.
    pub open spec fn wf(self) -> bool {
        &&& forall|i: int|
            0 <= i < self.lanes.len() ==> (#[trigger] self.lanes[i]).wf() && self.lanes[i].opened()
        &&& forall|i: int, j: int|
            0 <= i < j < self.lanes.len() ==> (#[trigger] self.lanes[i]).id < (
            #[trigger] self.lanes[j]).id
        &&& forall|i: int| 0 <= i < self.lanes.len() ==> (#[trigger] self.lanes[i]).id < self.next_id
        &&& self.cursor <= self.lanes.len()
    }

    /// How many runs the search passes, going round from the cursor, before
    /// it comes to the run at `i`.
    pub open spec fn distance(self, i: int) -> int {
        if i >= self.cursor {
            i - self.cursor
        } else {
            i + self.lanes.len() - self.cursor
        }
    }

    /// Whether it is the turn of the run at `i`: it has a record to write,
    /// and no run that the search passes before it has one.
    pub open spec fn is_turn(self, i: int) -> bool {
        &&& 0 <= i < self.lanes.len()
        &&& self.lanes[i].ready()
        &&& forall|j: int|
            0 <= j < self.lanes.len() && (#[trigger] self.lanes[j]).ready() ==> self.distance(i)
                <= self.distance(j)
    }

    /// Whether no run has a record to write.
    pub open spec fn idle(self) -> bool {
        forall|j: int| 0 <= j < self.lanes.len() ==> !(#[trigger] self.lanes[j]).ready()
    }

    /// Whether the run at `i` has the id `id`.
    pub open spec fn holds_at(self, id: u64, i: int) -> bool {
        0 <= i < self.lanes.len() && self.lanes[i].id == id
    }

    /// The place of the run with the id `id`, if the dispatcher holds it.
    pub open spec fn index_of(self, id: u64) -> Option<int> {
        if exists|i: int| self.holds_at(id, i) {
            Some(choose|i: int| self.holds_at(id, i))
        } else {
            None
        }
    }

    /// The dispatcher with `lane` in place of the run at `i`.
    pub open spec fn with_lane(self, i: int, lane: LaneView) -> DispatcherView {
        DispatcherView { lanes: self.lanes.update(i, lane), ..self }
    }

    /// The run that `register` adds: opened and `Active`, or, where the
    /// session is `doomed`, opened and given up at once.
    pub open spec fn newcomer(
        self,
        capacity: nat,
        overflow: OverflowPolicy,
        doomed: Option<Failure>,
    ) -> LaneView {
        let opening = LaneView::created(self.next_id, capacity, overflow).start();
        match doomed {
            Some(cause) => opening.fail(cause),
            None => opening.activate(),
        }
    }

    /// The dispatcher after a run was registered. Without an id left to give
    /// nothing changes.
    pub open spec fn register(
        self,
        capacity: nat,
        overflow: OverflowPolicy,
        doomed: Option<Failure>,
    ) -> DispatcherView {
        if self.next_id < u64::MAX {
            DispatcherView {
                lanes: self.lanes.push(self.newcomer(capacity, overflow, doomed)),
                next_id: (self.next_id + 1) as u64,
                ..self
            }
        } else {
            self
        }
    }

    /// The dispatcher after the head of the run at `i` was written: the run
    /// notes it, and the search for the next record begins behind that run.
    pub open spec fn sent_at(self, i: int) -> DispatcherView {
        DispatcherView {
            lanes: self.lanes.update(i, self.lanes[i].sent()),
            cursor: if i + 1 < self.lanes.len() {
                (i + 1) as nat
            } else {
                0
            },
            ..self
        }
    }

    /// Whether a write of the record numbered `seq` of the run `id` is the
    /// write of that run's head.
    pub open spec fn expects(self, id: u64, seq: u64) -> bool {
        match self.index_of(id) {
            Some(i) => self.lanes[i].ready() && self.lanes[i].queue.wired == seq,
            None => false,
        }
    }

    /// The dispatcher after it was told that the record numbered `seq` of
    /// the run `id` was written. A report that does not fit the head of that
    /// run changes nothing.
    pub open spec fn sent(self, id: u64, seq: u64) -> DispatcherView {
        if self.expects(id, seq) {
            self.sent_at(self.index_of(id).unwrap())
        } else {
            self
        }
    }

    /// The dispatcher after the service acknowledged the record numbered
    /// `seq` of the run `id`.
    pub open spec fn acknowledge(self, id: u64, seq: u64) -> DispatcherView {
        match self.index_of(id) {
            Some(i) => self.with_lane(i, self.lanes[i].acknowledge(seq)),
            None => self,
        }
    }

    /// The dispatcher after a frame arrived from the service. A frame that
    /// opens as a record acknowledges the record of that run and sequence
    /// number; any other frame is passed over.
    pub open spec fn inbound(self, body: Seq<u8>) -> DispatcherView {
        match spec_open(body) {
            Ok(r) => self.acknowledge(r.run_id, r.seq),
            Err(_) => self,
        }
    }

    /// The dispatcher after a series of frames arrived from the service.
    pub open spec fn inbound_all(self, bodies: Seq<Seq<u8>>) -> DispatcherView
        decreases bodies.len(),
    {
        if bodies.len() == 0 {
            self
        } else {
            self.inbound_all(bodies.drop_last()).inbound(bodies.last())
        }
    }

    /// The dispatcher after every run that was not at rest was given up.
    pub open spec fn fail_all(self, cause: Failure) -> DispatcherView {
        DispatcherView {
            lanes: Seq::new(self.lanes.len(), |i: int| self.lanes[i].fail(cause)),
            ..self
        }
    }

    /// The dispatcher after every run was asked to finish.
    pub open spec fn finish_all(self, exit_code: i32, now_ms: u64, deadline_ms: u64) -> DispatcherView {
        DispatcherView {
            lanes: Seq::new(
                self.lanes.len(),
                |i: int| self.lanes[i].finish(exit_code, now_ms, deadline_ms),
            ),
            ..self
        }
    }

    /// The dispatcher and the answer after `log` on the run `id`.
    pub open spec fn log(self, id: u64, kind: LogKind, payload: Seq<u8>, waited_ms: u64) -> (
        DispatcherView,
        Result<LogOutcome, RunError>,
    ) {
        match self.index_of(id) {
            Some(i) => (
                self.with_lane(i, self.lanes[i].log(kind, payload, waited_ms).0),
                self.lanes[i].log(kind, payload, waited_ms).1,
            ),
            None => (self, Err(RunError::UnknownRun)),
        }
    }

    /// The dispatcher and the answer after `update_config` on the run `id`.
    pub open spec fn update_config(self, id: u64, delta: Seq<u8>, waited_ms: u64) -> (
        DispatcherView,
        Result<LogOutcome, RunError>,
    ) {
        match self.index_of(id) {
            Some(i) => (
                self.with_lane(i, self.lanes[i].update_config(delta, waited_ms).0),
                self.lanes[i].update_config(delta, waited_ms).1,
            ),
            None => (self, Err(RunError::UnknownRun)),
        }
    }

    /// The dispatcher and the answer after `finish` on the run `id`.
    pub open spec fn finish(self, id: u64, exit_code: i32, now_ms: u64, deadline_ms: u64) -> (
        DispatcherView,
        Result<RunState, RunError>,
    ) {
        match self.index_of(id) {
            Some(i) => (
                self.with_lane(i, self.lanes[i].finish(exit_code, now_ms, deadline_ms)),
                self.lanes[i].finish_answer(exit_code, now_ms, deadline_ms),
            ),
            None => (self, Err(RunError::UnknownRun)),
        }
    }

    /// The place of the run whose turn it is.
    pub open spec fn turn(self) -> Option<int> {
        if exists|i: int| self.is_turn(i) {
            Some(choose|i: int| self.is_turn(i))
        } else {
            None
        }
    }

    /// Whether every run is at rest.
    pub open spec fn all_at_rest(self) -> bool {
        forall|i: int| 0 <= i < self.lanes.len() ==> (#[trigger] self.lanes[i]).state.spec_is_terminal()
    }

    /// The dispatcher after the run at `i` was forgotten.
    pub open spec fn without(self, i: int) -> DispatcherView {
        DispatcherView {
            lanes: self.lanes.remove(i),
            cursor: if self.cursor > i {
                (self.cursor - 1) as nat
            } else {
                self.cursor
            },
            ..self
        }
    }

    /// The dispatcher after it was asked to forget the run `id`: a run at
    /// rest is forgotten, any other is kept.
    pub open spec fn evict(self, id: u64) -> DispatcherView {
        match self.index_of(id) {
            Some(i) => if self.lanes[i].evictable() {
                self.without(i)
            } else {
                self
            },
            None => self,
        }
    }
}

/// A run is found at one place only.
pub proof fn lemma_index_unique(d: DispatcherView, id: u64, i: int)
    requires
        d.wf(),
        d.holds_at(id, i),
    ensures
        d.index_of(id) == Some(i),
{
    let j = choose|j: int| d.holds_at(id, j);
    if i < j {
        assert(d.lanes[i].id < d.lanes[j].id);
    } else if j < i {
        assert(d.lanes[j].id < d.lanes[i].id);
    }
}

/// A run that the dispatcher does not hold is found nowhere.
pub proof fn lemma_index_none(d: DispatcherView, id: u64)
    requires
        forall|i: int| 0 <= i < d.lanes.len() ==> (#[trigger] d.lanes[i]).id != id,
    ensures
        d.index_of(id) is None,
{
}

/// At most one run has the turn.
pub proof fn lemma_turn_unique(d: DispatcherView, i: int, j: int)
    requires
        d.wf(),
        d.is_turn(i),
        d.is_turn(j),
    ensures
        i == j,
{
    assert(d.lanes[i].ready());
    assert(d.lanes[j].ready());
}

/// Replacing a run by one of the same id that is in order keeps the
/// dispatcher in order.
pub proof fn lemma_with_lane_keeps_wf(d: DispatcherView, i: int, lane: LaneView)
    requires
        d.wf(),
        0 <= i < d.lanes.len(),
        lane.wf(),
        lane.opened(),
        lane.id == d.lanes[i].id,
    ensures
        d.with_lane(i, lane).wf(),
{
    let e = d.with_lane(i, lane);
    assert forall|a: int, b: int| 0 <= a < b < e.lanes.len() implies (#[trigger] e.lanes[a]).id < (
    #[trigger] e.lanes[b]).id by {
        assert(d.lanes[a].id < d.lanes[b].id);
    }
    assert forall|a: int| 0 <= a < e.lanes.len() implies (#[trigger] e.lanes[a]).id < e.next_id by {
        assert(d.lanes[a].id < d.next_id);
    }
    assert forall|a: int| 0 <= a < e.lanes.len() implies (#[trigger] e.lanes[a]).wf()
        && e.lanes[a].opened() by {
        if a != i {
            assert(d.lanes[a].wf());
        }
    }
}

/// Registering a run keeps the dispatcher in order. The run gets an id that
/// no run of this dispatcher had before, and has passed `Created` and
/// `Starting` to be `Active`, or, in a session that is doomed, `Failed`.
pub proof fn lemma_register_keeps_wf(
    d: DispatcherView,
    capacity: nat,
    overflow: OverflowPolicy,
    doomed: Option<Failure>,
)
    requires
        d.wf(),
        capacity <= usize::MAX,
    ensures
        d.register(capacity, overflow, doomed).wf(),
        d.newcomer(capacity, overflow, doomed).wf(),
        d.newcomer(capacity, overflow, doomed).opened(),
        d.newcomer(capacity, overflow, doomed).id == d.next_id,
        forall|i: int| 0 <= i < d.lanes.len() ==> (#[trigger] d.lanes[i]).id != d.next_id,
        d.newcomer(capacity, overflow, doomed).trace == match doomed {
            Some(cause) => seq![RunState::Created, RunState::Starting, RunState::Failed],
            None => seq![RunState::Created, RunState::Starting, RunState::Active],
        },
{
    let fresh = LaneView::created(d.next_id, capacity, overflow);
    assert(fresh.wf());
    lemma_open_keeps_wf(fresh);
    lemma_open_keeps_wf(fresh.start());
    let lane = d.newcomer(capacity, overflow, doomed);
    match doomed {
        Some(cause) => {
            lemma_fail_keeps_wf(fresh.start(), cause);
            assert(lane.trace =~= seq![RunState::Created, RunState::Starting, RunState::Failed]);
        },
        None => {},
    }
    assert forall|i: int| 0 <= i < d.lanes.len() implies (#[trigger] d.lanes[i]).id != d.next_id by {
        assert(d.lanes[i].id < d.next_id);
    }
    if d.next_id < u64::MAX {
        let e = d.register(capacity, overflow, doomed);
        assert forall|a: int, b: int| 0 <= a < b < e.lanes.len() implies (#[trigger] e.lanes[a]).id
            < (#[trigger] e.lanes[b]).id by {
            if b < d.lanes.len() {
                assert(d.lanes[a].id < d.lanes[b].id);
            } else {
                assert(d.lanes[a].id < d.next_id);
            }
        }
        assert forall|a: int| 0 <= a < e.lanes.len() implies (#[trigger] e.lanes[a]).id
            < e.next_id by {
            if a < d.lanes.len() {
                assert(d.lanes[a].id < d.next_id);
            }
        }
        assert forall|a: int| 0 <= a < e.lanes.len() implies (#[trigger] e.lanes[a]).wf()
            && e.lanes[a].opened() by {
            if a < d.lanes.len() {
                assert(d.lanes[a].wf());
            }
        }
    }
}

/// Noting a write keeps the dispatcher in order.
pub proof fn lemma_sent_at_keeps_wf(d: DispatcherView, i: int)
    requires
        d.wf(),
        0 <= i < d.lanes.len(),
    ensures
        d.sent_at(i).wf(),
{
    lemma_sent_keeps_wf(d.lanes[i]);
    let mid = d.with_lane(i, d.lanes[i].sent());
    lemma_with_lane_keeps_wf(d, i, d.lanes[i].sent());
    assert(d.sent_at(i).lanes == mid.lanes);
    assert forall|a: int, b: int| 0 <= a < b < mid.lanes.len() implies (#[trigger] d.sent_at(
        i,
    ).lanes[a]).id < (#[trigger] d.sent_at(i).lanes[b]).id by {
        assert(mid.lanes[a].id < mid.lanes[b].id);
    }
}

/// No run starves another. While a run has a record to write, every write
/// for another run brings its own turn nearer: the search then begins behind
/// the run that was served, so that each run with something to write is
/// served once before any is served twice.
pub proof fn lemma_no_starvation(d: DispatcherView, i: int, j: int)
    requires
        d.wf(),
        d.is_turn(i),
        0 <= j < d.lanes.len(),
        d.lanes[j].ready(),
        j != i,
    ensures
        d.sent_at(i).lanes[j] == d.lanes[j],
        0 <= d.sent_at(i).distance(j) < d.distance(j),
        d.sent_at(i).distance(j) < d.lanes.len() - 1,
{
    assert(d.distance(i) <= d.distance(j));
}

/// Frames from the service keep the dispatcher in order, and change neither
/// the state of any run nor what any run has queued or written.
pub proof fn lemma_inbound_all_keeps_wf(d: DispatcherView, bodies: Seq<Seq<u8>>)
    requires
        d.wf(),
    ensures
        d.inbound_all(bodies).wf(),
        d.inbound_all(bodies).lanes.len() == d.lanes.len(),
        d.inbound_all(bodies).cursor == d.cursor,
        d.inbound_all(bodies).next_id == d.next_id,
        forall|i: int|
            0 <= i < d.lanes.len() ==> {
                &&& (#[trigger] d.inbound_all(bodies).lanes[i]).state == d.lanes[i].state
                &&& d.inbound_all(bodies).lanes[i].trace == d.lanes[i].trace
                &&& d.inbound_all(bodies).lanes[i].id == d.lanes[i].id
                &&& d.inbound_all(bodies).lanes[i].cause == d.lanes[i].cause
                &&& d.inbound_all(bodies).lanes[i].queue.history == d.lanes[i].queue.history
                &&& d.inbound_all(bodies).lanes[i].queue.wired == d.lanes[i].queue.wired
            },
    decreases bodies.len(),
{
    if bodies.len() > 0 {
        let before = d.inbound_all(bodies.drop_last());
        lemma_inbound_all_keeps_wf(d, bodies.drop_last());
        match spec_open(bodies.last()) {
            Ok(r) => match before.index_of(r.run_id) {
                Some(i) => {
                    assert(before.lanes[i].wf());
                    lemma_with_lane_keeps_wf(before, i, before.lanes[i].acknowledge(r.seq));
                },
                None => {},
            },
            Err(_) => {},
        }
    }
}

/// Giving every run up keeps the dispatcher in order and leaves every run at
/// rest. Each run that was not at rest enters `Failed` this once; each run's
/// queue stays as it was.
pub proof fn lemma_fail_all_keeps_wf(d: DispatcherView, cause: Failure)
    requires
        d.wf(),
    ensures
        d.fail_all(cause).wf(),
        d.fail_all(cause).all_at_rest(),
        d.fail_all(cause).idle(),
        forall|i: int|
            0 <= i < d.lanes.len() ==> (#[trigger] d.fail_all(cause).lanes[i]) == d.lanes[i].fail(
                cause,
            ),
{
    let e = d.fail_all(cause);
    assert forall|a: int| 0 <= a < e.lanes.len() implies (#[trigger] e.lanes[a]).wf()
        && e.lanes[a].opened() && e.lanes[a].id == d.lanes[a].id
        && e.lanes[a].state.spec_is_terminal() by {
        assert(d.lanes[a].wf());
        lemma_fail_keeps_wf(d.lanes[a], cause);
    }
    assert forall|a: int, b: int| 0 <= a < b < e.lanes.len() implies (#[trigger] e.lanes[a]).id < (
    #[trigger] e.lanes[b]).id by {
        assert(d.lanes[a].id < d.lanes[b].id);
        assert(e.lanes[a].wf());
        assert(e.lanes[b].wf());
    }
    assert forall|a: int| 0 <= a < e.lanes.len() implies (#[trigger] e.lanes[a]).id < e.next_id by {
        assert(d.lanes[a].id < d.next_id);
        assert(e.lanes[a].wf());
    }
}

/// Asking every run to finish keeps the dispatcher in order.
pub proof fn lemma_finish_all_keeps_wf(
    d: DispatcherView,
    exit_code: i32,
    now_ms: u64,
    deadline_ms: u64,
)
    requires
        d.wf(),
    ensures
        d.finish_all(exit_code, now_ms, deadline_ms).wf(),
{
    let e = d.finish_all(exit_code, now_ms, deadline_ms);
    assert forall|a: int| 0 <= a < e.lanes.len() implies (#[trigger] e.lanes[a]).wf()
        && e.lanes[a].opened() && e.lanes[a].id == d.lanes[a].id by {
        assert(d.lanes[a].wf());
        lemma_finish_keeps_wf(d.lanes[a], exit_code, now_ms, deadline_ms);
    }
    assert forall|a: int, b: int| 0 <= a < b < e.lanes.len() implies (#[trigger] e.lanes[a]).id < (
    #[trigger] e.lanes[b]).id by {
        assert(d.lanes[a].id < d.lanes[b].id);
        assert(e.lanes[a].wf());
        assert(e.lanes[b].wf());
    }
    assert forall|a: int| 0 <= a < e.lanes.len() implies (#[trigger] e.lanes[a]).id < e.next_id by {
        assert(d.lanes[a].id < d.next_id);
        assert(e.lanes[a].wf());
    }
}

/// Forgetting a run keeps the dispatcher in order and every other run as it
/// was.
pub proof fn lemma_without_keeps_wf(d: DispatcherView, i: int)
    requires
        d.wf(),
        0 <= i < d.lanes.len(),
    ensures
        d.without(i).wf(),
        d.without(i).lanes.len() == d.lanes.len() - 1,
        forall|id: u64| id != d.lanes[i].id ==> (d.without(i).index_of(id) is Some <==> d.index_of(id) is Some),
        d.without(i).index_of(d.lanes[i].id) is None,
{
    let e = d.without(i);
    assert forall|a: int| 0 <= a < e.lanes.len() implies (#[trigger] e.lanes[a]) == d.lanes[if a
        < i {
        a
    } else {
        a + 1
    }] by {}
    assert forall|a: int| 0 <= a < e.lanes.len() implies (#[trigger] e.lanes[a]).wf()
        && e.lanes[a].opened() && e.lanes[a].id < e.next_id by {
        let k = if a < i { a } else { a + 1 };
        assert(d.lanes[k].wf());
        assert(d.lanes[k].id < d.next_id);
    }
    assert forall|a: int, b: int| 0 <= a < b < e.lanes.len() implies (#[trigger] e.lanes[a]).id < (
    #[trigger] e.lanes[b]).id by {
        let ka = if a < i { a } else { a + 1 };
        let kb = if b < i { b } else { b + 1 };
        assert(d.lanes[ka].id < d.lanes[kb].id);
    }
    assert forall|id: u64| id != d.lanes[i].id implies (e.index_of(id) is Some <==> d.index_of(id) is Some) by {
        if e.index_of(id) is Some {
            let a = e.index_of(id).unwrap();
            let k = if a < i { a } else { a + 1 };
            assert(d.holds_at(id, k));
        }
        if d.index_of(id) is Some {
            let k = d.index_of(id).unwrap();
            let a = if k < i { k } else { k - 1 };
            assert(e.holds_at(id, a));
        }
    }
    if e.index_of(d.lanes[i].id) is Some {
        let a = e.index_of(d.lanes[i].id).unwrap();
        let k = if a < i { a } else { a + 1 };
        if k < i {
            assert(d.lanes[k].id < d.lanes[i].id);
        } else {
            assert(d.lanes[i].id < d.lanes[k].id);
        }
    }
}

/// The runs of one session and the order in which they are served.
pub struct Dispatcher {
    lanes: Vec<Lane>,
    cursor: usize,
    next_id: u64,
}

impl View for Dispatcher {
    type V = DispatcherView;

    closed spec fn view(&self) -> DispatcherView {
        DispatcherView {
            lanes: Seq::new(self.lanes@.len(), |i: int| self.lanes@[i]@),
            cursor: self.cursor as nat,
            next_id: self.next_id,
        }
    }
}

impl Dispatcher {
    /// What the fields have to do with the value they stand for.
    pub closed spec fn fits(&self) -> bool {
        forall|i: int| 0 <= i < self.lanes@.len() ==> (#[trigger] self.lanes@[i]).fits()
    }

    /// Whether the dispatcher is in order.
    pub open spec fn wf(&self) -> bool {
        self.fits() && self@.wf()
    }

    /// A dispatcher without runs.
    pub fn new() -> (d: Dispatcher)
        ensures
            d.wf(),
            d@ == DispatcherView::empty(),
    {
        let d = Dispatcher { lanes: Vec::new(), cursor: 0, next_id: 0 };
        assert(d@.lanes =~= Seq::<LaneView>::empty());
        d
    }

    /// How many runs the dispatcher holds.
    pub fn len(&self) -> (n: usize)
        ensures
            n == self@.lanes.len(),
    {
        self.lanes.len()
    }

    /// The place of the run with the id `id`.
    pub fn find(&self, id: u64) -> (r: Option<usize>)
        requires
            self.wf(),
        ensures
            match self@.index_of(id) {
                Some(i) => r == Some(i as usize),
                None => r is None,
            },
            r matches Some(i) ==> i < self@.lanes.len() && self@.lanes[i as int].id == id,
    {
        let mut i: usize = 0;
        while i < self.lanes.len()
            invariant
                self.wf(),
                i <= self.lanes@.len(),
                forall|j: int| 0 <= j < i ==> (#[trigger] self@.lanes[j]).id != id,
            decreases self.lanes@.len() - i,
        {
            if self.lanes[i].id() == id {
                proof {
                    assert(self@.holds_at(id, i as int));
                    lemma_index_unique(self@, id, i as int);
                }
                return Some(i);
            }
            i = i + 1;
        }
        proof {
            lemma_index_none(self@, id);
        }
        None
    }

    /// The run at place `i`.
    pub fn lane(&self, i: usize) -> (l: &Lane)
        requires
            self.wf(),
            i < self@.lanes.len(),
        ensures
            l@ == self@.lanes[i as int],
            l.wf(),
    {
        &self.lanes[i]
    }

    /// Registers a run and opens it: the run is `Active` with its opening
    /// record queued, or, where the session is `doomed`, `Failed` for that
    /// cause. Returns the id of the run, which no run of this dispatcher had
    /// before; fails only when no id is left.
    pub fn register(&mut self, capacity: usize, overflow: OverflowPolicy, doomed: Option<Failure>) -> (r:
        Result<u64, RunError>)
        requires
            old(self).wf(),
        ensures
            final(self).wf(),
            final(self)@ == old(self)@.register(capacity as nat, overflow, doomed),
            r == if old(self)@.next_id < u64::MAX {
                Ok::<u64, RunError>(old(self)@.next_id)
            } else {
                Err::<u64, RunError>(RunError::RegistryFull)
            },
    {
        if self.next_id == u64::MAX {
            return Err(RunError::RegistryFull);
        }
        let id: u64 = self.next_id;
        proof {
            lemma_register_keeps_wf(self@, capacity as nat, overflow, doomed);
        }
        let mut lane = Lane::new(id, capacity, overflow);
        lane.start();
        match doomed {
            Some(cause) => {
                lane.fail(cause);
            },
            None => {
                lane.activate();
            },
        }
        self.lanes.push(lane);
        self.next_id = id + 1;
        assert(self@.lanes =~= old(self)@.register(capacity as nat, overflow, doomed).lanes);
        Ok(id)
    }

    /// Logs a record for the run `id`.
    pub fn log(&mut self, id: u64, kind: LogKind, payload: &[u8], waited_ms: u64) -> (r: Result<
        LogOutcome,
        RunError,
    >)
        requires
            old(self).wf(),
        ensures
            final(self).wf(),
            (final(self)@, r) == old(self)@.log(id, kind, payload@, waited_ms),
    {
        match self.find(id) {
            None => Err(RunError::UnknownRun),
            Some(i) => {
                let r = self.lanes[i].log(kind, payload, waited_ms);
                proof {
                    let lane = old(self)@.lanes[i as int].log(kind, payload@, waited_ms).0;
                    assert(self@.lanes =~= old(self)@.lanes.update(i as int, lane));
                    lemma_with_lane_keeps_wf(old(self)@, i as int, lane);
                }
                r
            },
        }
    }

    /// Queues a change of configuration for the run `id`.
    pub fn update_config(&mut self, id: u64, delta: &[u8], waited_ms: u64) -> (r: Result<
        LogOutcome,
        RunError,
    >)
        requires
            old(self).wf(),
        ensures
            final(self).wf(),
            (final(self)@, r) == old(self)@.update_config(id, delta@, waited_ms),
    {
        match self.find(id) {
            None => Err(RunError::UnknownRun),
            Some(i) => {
                let r = self.lanes[i].update_config(delta, waited_ms);
                proof {
                    let lane = old(self)@.lanes[i as int].update_config(delta@, waited_ms).0;
                    assert(self@.lanes =~= old(self)@.lanes.update(i as int, lane));
                    lemma_with_lane_keeps_wf(old(self)@, i as int, lane);
                }
                r
            },
        }
    }

    /// Asks the run `id` to end.
    pub fn finish(&mut self, id: u64, exit_code: i32, now_ms: u64, deadline_ms: u64) -> (r: Result<
        RunState,
        RunError,
    >)
        requires
            old(self).wf(),
        ensures
            final(self).wf(),
            (final(self)@, r) == old(self)@.finish(id, exit_code, now_ms, deadline_ms),
    {
        match self.find(id) {
            None => Err(RunError::UnknownRun),
            Some(i) => {
                let r = self.lanes[i].finish(exit_code, now_ms, deadline_ms);
                proof {
                    let lane = old(self)@.lanes[i as int].finish(exit_code, now_ms, deadline_ms);
                    assert(self@.lanes =~= old(self)@.lanes.update(i as int, lane));
                    lemma_with_lane_keeps_wf(old(self)@, i as int, lane);
                }
                r
            },
        }
    }

    /// The place of the run whose turn it is to write, if any run has a
    /// record to write.
    pub fn pick(&self) -> (r: Option<usize>)
        requires
            self.wf(),
        ensures
            match r {
                Some(i) => self@.is_turn(i as int),
                None => self@.idle(),
            },
    {
        let n: usize = self.lanes.len();
        let start: usize = if self.cursor < n {
            self.cursor
        } else {
            0
        };
        let mut k: usize = 0;
        while k < n
            invariant
                self.wf(),
                n == self@.lanes.len(),
                k <= n,
                start == if self@.cursor < n {
                    self@.cursor
                } else {
                    0
                },
                forall|j: int|
                    0 <= j < n && self@.distance(j) < k ==> !(#[trigger] self@.lanes[j]).ready(),
            decreases n - k,
        {
            let i: usize = if k < n - start {
                start + k
            } else {
                k - (n - start)
            };
            assert(self@.distance(i as int) == k);
            assert(self@.lanes[i as int].wf());
            if self.lanes[i].is_ready() {
                return Some(i);
            }
            assert forall|j: int| 0 <= j < n && self@.distance(j) < k + 1 implies !(
            #[trigger] self@.lanes[j]).ready() by {
                if self@.distance(j) == k {
                    assert(j == i);
                }
            }
            k = k + 1;
        }
        None
    }

    /// The record to write next: the head of the run whose turn it is.
    /// Nothing changes until the write is reported with `sent`.
    pub fn next(&self) -> (r: Option<&Record>)
        requires
            self.wf(),
        ensures
            match r {
                Some(record) => {
                    &&& self@.turn() is Some
                    &&& self@.lanes[self@.turn().unwrap()].queue.head() == Some(record@)
                    &&& record@.run_id == self@.lanes[self@.turn().unwrap()].id
                    &&& record@.seq == self@.lanes[self@.turn().unwrap()].queue.wired
                    &&& record@.kind.wf()
                    &&& record@.payload.len() <= MAX_PAYLOAD_LEN
                },
                None => self@.turn() is None && self@.idle(),
            },
    {
        match self.pick() {
            None => {
                assert(forall|i: int| !self@.is_turn(i));
                None
            },
            Some(i) => {
                proof {
                    lemma_turn_unique(self@, i as int, self@.turn().unwrap());
                    assert(self@.lanes[i as int].wf());
                }
                self.lanes[i].head()
            },
        }
    }

    /// Takes in the report that the record numbered `seq` of the run `id`
    /// was written to the stream.
    pub fn sent(&mut self, id: u64, seq: u64)
        requires
            old(self).wf(),
        ensures
            final(self).wf(),
            final(self)@ == old(self)@.sent(id, seq),
    {
        match self.find(id) {
            None => {},
            Some(i) => {
                let fits: bool = match self.lanes[i].head() {
                    Some(record) => record.seq == seq,
                    None => false,
                };
                let n: usize = self.lanes.len();
                if fits {
                    self.lanes[i].mark_sent();
                    self.cursor = if i + 1 < n {
                        i + 1
                    } else {
                        0
                    };
                    proof {
                        lemma_sent_at_keeps_wf(old(self)@, i as int);
                        assert(self@.lanes =~= old(self)@.sent_at(i as int).lanes);
                    }
                }
            },
        }
    }

    /// Takes in the service's acknowledgement of the record numbered `seq`
    /// of the run `id`.
    pub fn acknowledge(&mut self, id: u64, seq: u64)
        requires
            old(self).wf(),
        ensures
            final(self).wf(),
            final(self)@ == old(self)@.acknowledge(id, seq),
    {
        match self.find(id) {
            None => {},
            Some(i) => {
                self.lanes[i].acknowledge(seq);
                proof {
                    let lane = old(self)@.lanes[i as int].acknowledge(seq);
                    assert(self@.lanes =~= old(self)@.lanes.update(i as int, lane));
                    lemma_with_lane_keeps_wf(old(self)@, i as int, lane);
                }
            },
        }
    }

    /// Takes in a frame that arrived from the service. Says whether the
    /// frame could be read.
    pub fn inbound(&mut self, body: &[u8]) -> (understood: bool)
        requires
            old(self).wf(),
        ensures
            final(self).wf(),
            final(self)@ == old(self)@.inbound(body@),
            understood == spec_open(body@) is Ok,
    {
        match Record::decode(body) {
            Ok(record) => {
                self.acknowledge(record.run_id, record.seq);
                true
            },
            Err(_) => false,
        }
    }

    /// Gives up every run that is not at rest.
    pub fn fail_all(&mut self, cause: Failure)
        requires
            old(self).wf(),
        ensures
            final(self).wf(),
            final(self)@ == old(self)@.fail_all(cause),
    {
        let n: usize = self.lanes.len();
        let mut i: usize = 0;
        while i < n
            invariant
                i <= n,
                n == self.lanes@.len(),
                n == old(self).lanes@.len(),
                self.cursor == old(self).cursor,
                self.next_id == old(self).next_id,
                forall|j: int| 0 <= j < i ==> (#[trigger] self.lanes@[j]).wf() && self.lanes@[j]@ == old(
                    self,
                ).lanes@[j]@.fail(cause),
                forall|j: int| i <= j < n ==> (#[trigger] self.lanes@[j]) == old(self).lanes@[j],
                old(self).wf(),
            decreases n - i,
        {
            assert(old(self)@.lanes[i as int].wf());
            self.lanes[i].fail(cause);
            i = i + 1;
        }
        proof {
            lemma_fail_all_keeps_wf(old(self)@, cause);
            assert(self@.lanes =~= old(self)@.fail_all(cause).lanes);
        }
    }

    /// Asks every run to finish with `exit_code`.
    pub fn finish_all(&mut self, exit_code: i32, now_ms: u64, deadline_ms: u64)
        requires
            old(self).wf(),
        ensures
            final(self).wf(),
            final(self)@ == old(self)@.finish_all(exit_code, now_ms, deadline_ms),
    {
        let n: usize = self.lanes.len();
        let mut i: usize = 0;
        while i < n
            invariant
                i <= n,
                n == self.lanes@.len(),
                n == old(self).lanes@.len(),
                self.cursor == old(self).cursor,
                self.next_id == old(self).next_id,
                forall|j: int| 0 <= j < i ==> (#[trigger] self.lanes@[j]).wf() && self.lanes@[j]@ == old(
                    self,
                ).lanes@[j]@.finish(exit_code, now_ms, deadline_ms),
                forall|j: int| i <= j < n ==> (#[trigger] self.lanes@[j]) == old(self).lanes@[j],
                old(self).wf(),
            decreases n - i,
        {
            assert(old(self)@.lanes[i as int].wf());
            let _ = self.lanes[i].finish(exit_code, now_ms, deadline_ms);
            i = i + 1;
        }
        proof {
            lemma_finish_all_keeps_wf(old(self)@, exit_code, now_ms, deadline_ms);
            assert(self@.lanes =~= old(self)@.finish_all(exit_code, now_ms, deadline_ms).lanes);
        }
    }

    /// Whether every run is at rest.
    pub fn all_at_rest(&self) -> (b: bool)
        requires
            self.wf(),
        ensures
            b == self@.all_at_rest(),
    {
        let mut i: usize = 0;
        while i < self.lanes.len()
            invariant
                i <= self.lanes@.len(),
                forall|j: int| 0 <= j < i ==> (#[trigger] self@.lanes[j]).state.spec_is_terminal(),
            decreases self.lanes@.len() - i,
        {
            if !self.lanes[i].state().is_terminal() {
                assert(!self@.lanes[i as int].state.spec_is_terminal());
                return false;
            }
            i = i + 1;
        }
        true
    }

    /// Forgets the run `id` if it is at rest, and hands it out with its
    /// queue, so that what it never wrote can still be looked at. A run that
    /// is not at rest is kept.
    pub fn evict(&mut self, id: u64) -> (r: Option<Lane>)
        requires
            old(self).wf(),
        ensures
            final(self).wf(),
            final(self)@ == old(self)@.evict(id),
            match old(self)@.index_of(id) {
                Some(i) => if old(self)@.lanes[i].evictable() {
                    r is Some && r.unwrap()@ == old(self)@.lanes[i] && r.unwrap().wf()
                } else {
                    r is None
                },
                None => r is None,
            },
    {
        match self.find(id) {
            None => None,
            Some(i) => {
                if self.lanes[i].state().is_terminal() {
                    let lane = self.lanes.remove(i);
                    if self.cursor > i {
                        self.cursor = self.cursor - 1;
                    }
                    proof {
                        lemma_without_keeps_wf(old(self)@, i as int);
                        assert(self@.lanes =~= old(self)@.without(i as int).lanes);
                    }
                    Some(lane)
                } else {
                    None
                }
            },
        }
    }
}

} // verus!
