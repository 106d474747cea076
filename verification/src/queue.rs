//! The queue of one run: every record the run has accepted, in the order in
//! which it was accepted, with two marks in it. Records before the first mark
//! have been acknowledged by the service and are forgotten; records before the
//! second have been written to the stream.

use vstd::prelude::*;
use crate::record::{Record, RecordKind, RecordView, MAX_PAYLOAD_LEN};
use vstd::slice::slice_to_vec;

verus! {

/// Why a queue did not take a record.
#[derive(Clone, Copy, PartialEq, Eq, Structural, Debug)]
pub enum QueueError {
    /// The payload does not fit a frame.
    TooLarge,
    /// The run has used up its sequence numbers.
    Exhausted,
    /// The queue holds as many caller records as it may.
    Full,
}

/// The records of `s` as mathematical values.
pub open spec fn spec_views(s: Seq<Record>) -> Seq<RecordView> {
    Seq::new(s.len(), |i: int| s[i]@)
}

/// How many records of `s` come from the caller's data.
pub open spec fn spec_count_data(s: Seq<RecordView>) -> nat
    decreases s.len(),
{
    if s.len() == 0 {
        0
    } else {
        spec_count_data(s.drop_last()) + if s.last().kind.spec_is_data() {
            1nat
        } else {
            0nat
        }
    }
}

/// A queue as a mathematical value.
pub struct QueueView {
    /// The run that the queue belongs to.
    pub run_id: u64,
    /// How many caller records may wait for their acknowledgement.
    pub capacity: nat,
    /// Every record accepted so far, oldest first.
    pub history: Seq<RecordView>,
    /// How many records, from the oldest on, the service has acknowledged.
    pub acked: nat,
    /// How many records, from the oldest on, have been written to the stream.
    pub wired: nat,
    /// How many records were discarded because the queue was full.
    pub dropped: nat,
}

impl QueueView {
    /// A queue that has accepted nothing.
    pub open spec fn empty(run_id: u64, capacity: nat) -> QueueView {
        QueueView { run_id, capacity, history: Seq::empty(), acked: 0, wired: 0, dropped: 0 }
    }

    /// The marks are in order, and every record carries the run of the queue
    /// and its own position as its sequence number.
    pub open spec fn wf(self) -> bool {
        &&& self.acked <= self.wired <= self.history.len() <= u64::MAX
        &&& self.capacity <= usize::MAX
        &&& self.dropped <= u64::MAX
        &&& forall|i: int|
            0 <= i < self.history.len() ==> {
                &&& (#[trigger] self.history[i]).seq == i
                &&& self.history[i].run_id == self.run_id
                &&& self.history[i].kind.wf()
                &&& self.history[i].payload.len() <= MAX_PAYLOAD_LEN
            }
    }

    /// The records not yet acknowledged, oldest first.
    pub open spec fn pending(self) -> Seq<RecordView> {
        self.history.subrange(self.acked as int, self.history.len() as int)
    }

    /// The records not yet written to the stream, oldest first.
    pub open spec fn unsent(self) -> Seq<RecordView> {
        self.history.subrange(self.wired as int, self.history.len() as int)
    }

    /// The records written to the stream so far, in the order in which they
    /// were written.
    pub open spec fn delivered(self) -> Seq<RecordView> {
        self.history.subrange(0, self.wired as int)
    }

    /// Whether every accepted record has been written to the stream.
    pub open spec fn drained(self) -> bool {
        self.wired == self.history.len()
    }

    /// The record to write next.
    pub open spec fn head(self) -> Option<RecordView> {
        if self.wired < self.history.len() {
            Some(self.history[self.wired as int])
        } else {
            None
        }
    }

    /// Whether the queue takes a record of this kind and size. A payload
    /// must fit a frame. The last two sequence numbers are kept for the
    /// records that open and close the run. Caller records are held to the
    /// capacity; the records that open and close the run are not.
    pub open spec fn admits(self, kind: RecordKind, payload_len: nat) -> Result<(), QueueError> {
        if payload_len > MAX_PAYLOAD_LEN {
            Err(QueueError::TooLarge)
        } else if self.history.len() >= u64::MAX || (kind.spec_is_data() && self.history.len()
            >= u64::MAX - 2) {
            Err(QueueError::Exhausted)
        } else if kind.spec_is_data() && spec_count_data(self.pending()) >= self.capacity {
            Err(QueueError::Full)
        } else {
            Ok(())
        }
    }

    /// The record that the queue makes of a kind and a payload: it gets the
    /// next sequence number.
    pub open spec fn stamp(self, kind: RecordKind, payload: Seq<u8>) -> RecordView {
        RecordView { kind, run_id: self.run_id, seq: self.history.len() as u64, payload }
    }

    /// The queue after it was offered a record: the record is added behind
    /// all others if the queue admits it; otherwise nothing changes.
    pub open spec fn offer(self, kind: RecordKind, payload: Seq<u8>) -> QueueView {
        if self.admits(kind, payload.len()) is Ok {
            QueueView { history: self.history.push(self.stamp(kind, payload)), ..self }
        } else {
            self
        }
    }

    /// The queue after its head was written to the stream.
    pub open spec fn sent(self) -> QueueView {
        if self.wired < self.history.len() {
            QueueView { wired: self.wired + 1, ..self }
        } else {
            self
        }
    }

    /// The queue after the service acknowledged the record numbered `seq`,
    /// and with it all earlier ones. An acknowledgement of a record that was
    /// not written yet, or that was acknowledged before, changes nothing.
    pub open spec fn acknowledge(self, seq: u64) -> QueueView {
        if self.acked <= seq < self.wired {
            QueueView { acked: seq as nat + 1, ..self }
        } else {
            self
        }
    }

    /// The queue after one more record was discarded.
    pub open spec fn discard(self) -> QueueView {
        if self.dropped < u64::MAX {
            QueueView { dropped: self.dropped + 1, ..self }
        } else {
            self
        }
    }
}

/// What can be done to a queue.
pub enum QueueOp {
    /// A record is offered.
    Offer { kind: RecordKind, payload: Seq<u8> },
    /// The head was written to the stream.
    Sent,
    /// The service acknowledged a sequence number.
    Ack { seq: u64 },
    /// A record was discarded.
    Discard,
}

impl QueueView {
    /// The queue after one operation.
    pub open spec fn step(self, op: QueueOp) -> QueueView {
        match op {
            QueueOp::Offer { kind, payload } => self.offer(kind, payload),
            QueueOp::Sent => self.sent(),
            QueueOp::Ack { seq } => self.acknowledge(seq),
            QueueOp::Discard => self.discard(),
        }
    }

    /// The queue after a series of operations.
    pub open spec fn replay(self, ops: Seq<QueueOp>) -> QueueView
        decreases ops.len(),
    {
        if ops.len() == 0 {
            self
        } else {
            self.replay(ops.drop_last()).step(ops.last())
        }
    }
}

/// The records that a series of operations adds to a queue, in the order in
/// which they were offered.
pub open spec fn spec_accepted(q: QueueView, ops: Seq<QueueOp>) -> Seq<RecordView>
    decreases ops.len(),
{
    if ops.len() == 0 {
        Seq::empty()
    } else {
        let before = q.replay(ops.drop_last());
        let earlier = spec_accepted(q, ops.drop_last());
        match ops.last() {
            QueueOp::Offer { kind, payload } => if before.admits(kind, payload.len()) is Ok {
                earlier.push(before.stamp(kind, payload))
            } else {
                earlier
            },
            _ => earlier,
        }
    }
}

/// The records that a series of operations writes to the stream, in the
/// order in which they are written.
pub open spec fn spec_emitted(q: QueueView, ops: Seq<QueueOp>) -> Seq<RecordView>
    decreases ops.len(),
{
    if ops.len() == 0 {
        Seq::empty()
    } else {
        let before = q.replay(ops.drop_last());
        let earlier = spec_emitted(q, ops.drop_last());
        match (ops.last(), before.head()) {
            (QueueOp::Sent, Some(r)) => earlier.push(r),
            _ => earlier,
        }
    }
}

/// Every operation keeps a queue well formed, keeps what was accepted and
/// what was written, and moves the marks forward only.
pub proof fn lemma_step_keeps_wf(q: QueueView, op: QueueOp)
    requires
        q.wf(),
        op matches QueueOp::Offer { kind, payload } ==> kind.wf(),
    ensures
        q.step(op).wf(),
        q.step(op).run_id == q.run_id,
        q.step(op).capacity == q.capacity,
        q.history.len() <= q.step(op).history.len(),
        q.step(op).history.subrange(0, q.history.len() as int) == q.history,
        q.acked <= q.step(op).acked,
        q.wired <= q.step(op).wired,
{
    assert(q.step(op).history.subrange(0, q.history.len() as int) =~= q.history);
}

/// Order is kept from end to end. Whatever is done to a well-formed queue,
/// in whatever order, the records reach the stream in the order in which
/// they were accepted: what has been written is always the beginning of what
/// has been accepted, record for record.
pub proof fn lemma_wire_order(q: QueueView, ops: Seq<QueueOp>)
    requires
        q.wf(),
        forall|i: int|
            0 <= i < ops.len() ==> (#[trigger] ops[i] matches QueueOp::Offer { kind, payload }
                ==> kind.wf()),
    ensures
        q.replay(ops).wf(),
        q.replay(ops).history == q.history + spec_accepted(q, ops),
        q.replay(ops).delivered() == q.delivered() + spec_emitted(q, ops),
        spec_emitted(q, ops).len() <= q.unsent().len() + spec_accepted(q, ops).len(),
        spec_emitted(q, ops) == (q.unsent() + spec_accepted(q, ops)).subrange(
            0,
            spec_emitted(q, ops).len() as int,
        ),
    decreases ops.len(),
{
    if ops.len() == 0 {
        assert(q.history + spec_accepted(q, ops) =~= q.history);
        assert(q.delivered() + spec_emitted(q, ops) =~= q.delivered());
        assert(spec_emitted(q, ops) =~= (q.unsent() + spec_accepted(q, ops)).subrange(0, 0));
    } else {
        let init = ops.drop_last();
        let before = q.replay(init);
        lemma_wire_order(q, init);
        lemma_step_keeps_wf(before, ops.last());
        let after = q.replay(ops);
        assert(after.history =~= q.history + spec_accepted(q, ops));
        assert(after.delivered() =~= q.delivered() + spec_emitted(q, ops)) by {
            match (ops.last(), before.head()) {
                (QueueOp::Sent, Some(r)) => {
                    assert(after.delivered() =~= before.delivered().push(r));
                },
                _ => {
                    assert(after.delivered() =~= before.delivered());
                },
            }
        }
        assert(spec_emitted(q, ops) =~= (q.unsent() + spec_accepted(q, ops)).subrange(
            0,
            spec_emitted(q, ops).len() as int,
        )) by {
            let e = spec_emitted(q, ops);
            let all = q.unsent() + spec_accepted(q, ops);
            assert(after.wired == q.wired + e.len());
            assert forall|i: int| 0 <= i < e.len() implies e[i] == all[i] by {
                assert(after.delivered()[q.wired + i] == e[i]);
                assert(after.history[q.wired + i] == all[i]);
            }
        }
    }
}

/// Counting the caller records of a sequence can be done in two parts.
pub proof fn lemma_count_data_split(s: Seq<RecordView>, k: int)
    requires
        0 <= k <= s.len(),
    ensures
        spec_count_data(s) == spec_count_data(s.subrange(0, k)) + spec_count_data(
            s.subrange(k, s.len() as int),
        ),
    decreases s.len(),
{
    if k == s.len() {
        assert(s.subrange(0, k) =~= s);
        assert(s.subrange(k, s.len() as int) =~= Seq::<RecordView>::empty());
    } else {
        let t = s.drop_last();
        lemma_count_data_split(t, k);
        assert(t.subrange(0, k) =~= s.subrange(0, k));
        assert(s.subrange(k, s.len() as int).drop_last() =~= t.subrange(k, t.len() as int));
    }
}

/// The queue of one run.
pub struct RunQueue {
    run_id: u64,
    capacity: usize,
    pending: Vec<Record>,
    sent: usize,
    next_seq: u64,
    data_pending: usize,
    dropped: u64,
    history: Ghost<Seq<RecordView>>,
}

impl View for RunQueue {
    type V = QueueView;

    closed spec fn view(&self) -> QueueView {
        QueueView {
            run_id: self.run_id,
            capacity: self.capacity as nat,
            history: self.history@,
            acked: (self.next_seq - self.pending@.len()) as nat,
            wired: (self.next_seq - self.pending@.len() + self.sent) as nat,
            dropped: self.dropped as nat,
        }
    }
}

impl RunQueue {
    /// What the fields have to do with the value they stand for.
    pub closed spec fn fits(&self) -> bool {
        &&& self.next_seq == self.history@.len()
        &&& self.pending@.len() <= self.next_seq
        &&& self.sent <= self.pending@.len()
        &&& spec_views(self.pending@) =~= self@.pending()
        &&& self.data_pending == spec_count_data(self@.pending())
    }

    /// Whether the queue is in order.
    pub open spec fn wf(&self) -> bool {
        self.fits() && self@.wf()
    }

    /// A queue for `run_id` that has accepted nothing and holds at most
    /// `capacity` caller records.
    pub fn new(run_id: u64, capacity: usize) -> (q: RunQueue)
        ensures
            q.wf(),
            q@ == QueueView::empty(run_id, capacity as nat),
    {
        let q = RunQueue {
            run_id,
            capacity,
            pending: Vec::new(),
            sent: 0,
            next_seq: 0,
            data_pending: 0,
            dropped: 0,
            history: Ghost(Seq::empty()),
        };
        assert(q@.pending() =~= Seq::<RecordView>::empty());
        q
    }

    /// Offers a record of the given kind and payload. The record gets the
    /// next sequence number and its place behind all others, and the number
    /// is returned; or the queue says why it did not take it and stays as it
    /// was.
    pub fn enqueue(&mut self, kind: RecordKind, payload: &[u8]) -> (r: Result<u64, QueueError>)
        requires
            old(self).wf(),
            kind.wf(),
        ensures
            final(self).wf(),
            final(self)@ == old(self)@.offer(kind, payload@),
            r == match old(self)@.admits(kind, payload@.len()) {
                Ok(_) => Ok::<u64, QueueError>(old(self)@.history.len() as u64),
                Err(e) => Err::<u64, QueueError>(e),
            },
    {
        if payload.len() > MAX_PAYLOAD_LEN {
            return Err(QueueError::TooLarge);
        }
        let data: bool = kind.is_data();
        if self.next_seq == u64::MAX || (data && self.next_seq >= u64::MAX - 2) {
            return Err(QueueError::Exhausted);
        }
        if data && self.data_pending >= self.capacity {
            return Err(QueueError::Full);
        }
        let seq: u64 = self.next_seq;
        let record = Record { kind, run_id: self.run_id, seq, payload: slice_to_vec(payload) };
        proof {
            let before = self@.pending();
            let after = before.push(record@);
            assert(after.drop_last() =~= before);
            self.history@ = self.history@.push(record@);
        }
        self.pending.push(record);
        self.next_seq = seq + 1;
        if data {
            self.data_pending = self.data_pending + 1;
        }
        proof {
            assert(self@.history =~= old(self)@.history.push(old(self)@.stamp(kind, payload@)));
            assert(self@.pending() =~= old(self)@.pending().push(record@));
            assert(spec_views(self.pending@) =~= self@.pending());
        }
        Ok(seq)
    }

    /// The record to write to the stream next, if any is waiting.
    pub fn head(&self) -> (r: Option<&Record>)
        requires
            self.wf(),
        ensures
            match self@.head() {
                Some(v) => r is Some && r.unwrap()@ == v,
                None => r is None,
            },
    {
        if self.sent < self.pending.len() {
            let r = &self.pending[self.sent];
            assert(spec_views(self.pending@)[self.sent as int] == r@);
            Some(r)
        } else {
            None
        }
    }

    /// Notes that the head was written to the stream. Says whether there was
    /// a head.
    pub fn mark_sent(&mut self) -> (moved: bool)
        requires
            old(self).wf(),
        ensures
            final(self).wf(),
            final(self)@ == old(self)@.sent(),
            moved == old(self)@.head() is Some,
    {
        if self.sent < self.pending.len() {
            self.sent = self.sent + 1;
            true
        } else {
            false
        }
    }

    /// Takes in an acknowledgement of the record numbered `seq` and forgets
    /// that record and all before it. Returns how many records were
    /// forgotten.
    pub fn acknowledge(&mut self, seq: u64) -> (released: usize)
        requires
            old(self).wf(),
        ensures
            final(self).wf(),
            final(self)@ == old(self)@.acknowledge(seq),
            released == final(self)@.acked - old(self)@.acked,
    {
        let held: u64 = self.pending.len() as u64;
        let acked: u64 = self.next_seq - held;
        if seq < acked || seq - acked >= self.sent as u64 {
            return 0;
        }
        let k: usize = (seq - acked) as usize + 1;
        let ghost views = self@.pending();
        let mut gone: usize = 0;
        let mut i: usize = 0;
        while i < k
            invariant
                i <= k <= self.pending@.len(),
                self.wf(),
                views == self@.pending(),
                gone == spec_count_data(views.subrange(0, i as int)),
                gone <= i,
            decreases k - i,
        {
            proof {
                assert(views.subrange(0, i + 1).drop_last() =~= views.subrange(0, i as int));
                assert(spec_views(self.pending@)[i as int] == self.pending@[i as int]@);
            }
            if self.pending[i].kind.is_data() {
                gone = gone + 1;
            }
            i = i + 1;
        }
        proof {
            lemma_count_data_split(views, k as int);
        }
        let rest = self.pending.split_off(k);
        self.pending = rest;
        self.sent = self.sent - k;
        self.data_pending = self.data_pending - gone;
        proof {
            assert(self@.pending() =~= views.subrange(k as int, views.len() as int));
            assert(spec_views(self.pending@) =~= self@.pending());
        }
        k
    }

    /// Counts one more discarded record.
    pub fn note_dropped(&mut self)
        requires
            old(self).wf(),
        ensures
            final(self).wf(),
            final(self)@ == old(self)@.discard(),
    {
        if self.dropped < u64::MAX {
            self.dropped = self.dropped + 1;
        }
    }

    /// Copies of the records that have not been written to the stream,
    /// oldest first.
    pub fn unsent_records(&self) -> (r: Vec<Record>)
        requires
            self.wf(),
        ensures
            spec_views(r@) == self@.unsent(),
    {
        let mut out: Vec<Record> = Vec::new();
        let mut i: usize = self.sent;
        while i < self.pending.len()
            invariant
                self.wf(),
                self.sent <= i <= self.pending@.len(),
                out@.len() == i - self.sent,
                forall|j: int| 0 <= j < out@.len() ==> (#[trigger] out@[j])@ == self.pending@[self.sent + j]@,
            decreases self.pending@.len() - i,
        {
            out.push(self.pending[i].duplicate());
            i = i + 1;
        }
        proof {
            assert forall|j: int| 0 <= j < out@.len() implies spec_views(out@)[j]
                == self@.unsent()[j] by {
                assert(spec_views(self.pending@)[self.sent + j] == self.pending@[self.sent + j]@);
            }
            assert(spec_views(out@) =~= self@.unsent());
        }
        out
    }

    /// The run that the queue belongs to.
    pub fn run_id(&self) -> (id: u64)
        ensures
            id == self@.run_id,
    {
        self.run_id
    }

    /// How many caller records may wait for their acknowledgement.
    pub fn capacity(&self) -> (n: usize)
        ensures
            n == self@.capacity,
    {
        self.capacity
    }

    /// How many records have been accepted so far; also the sequence number
    /// that the next record gets.
    pub fn accepted(&self) -> (n: u64)
        requires
            self.wf(),
        ensures
            n == self@.history.len(),
    {
        self.next_seq
    }

    /// How many records the service has acknowledged: every record with a
    /// smaller sequence number has arrived.
    pub fn acked(&self) -> (n: u64)
        requires
            self.wf(),
        ensures
            n == self@.acked,
    {
        self.next_seq - self.pending.len() as u64
    }

    /// How many records have been written to the stream.
    pub fn wired(&self) -> (n: u64)
        requires
            self.wf(),
        ensures
            n == self@.wired,
    {
        self.next_seq - self.pending.len() as u64 + self.sent as u64
    }

    /// How many records wait to be written.
    pub fn unsent_len(&self) -> (n: usize)
        requires
            self.wf(),
        ensures
            n == self@.unsent().len(),
    {
        self.pending.len() - self.sent
    }

    /// How many records wait for their acknowledgement.
    pub fn pending_len(&self) -> (n: usize)
        requires
            self.wf(),
        ensures
            n == self@.pending().len(),
    {
        self.pending.len()
    }

    /// Whether every accepted record has been written to the stream.
    pub fn is_drained(&self) -> (b: bool)
        requires
            self.wf(),
        ensures
            b == self@.drained(),
    {
        self.sent == self.pending.len()
    }

    /// How many records were discarded because the queue was full.
    pub fn dropped(&self) -> (n: u64)
        ensures
            n == self@.dropped,
    {
        self.dropped
    }
}

} // verus!
