//! The framed channel to the service, seen from the side that decides: when
//! bytes may be written, what a read has delivered, and whether a fault is
//! worth another attempt.

use vstd::prelude::*;
use crate::frame::{
    encode_frame, spec_frame, spec_parse_all, spec_residue, FrameReader, MAX_BODY_LEN,
};
use crate::settings::BackoffPolicy;

verus! {

/// A fault of the transport.
#[derive(Clone, Copy, PartialEq, Eq, Structural, Debug)]
pub enum ConnError {
    /// The stream is not open, or the peer closed it.
    Closed,
    /// A read or write did not complete in time.
    Timeout,
    /// Any other failure of the stream.
    Io,
}

/// Where the channel stands.
#[derive(Clone, Copy, PartialEq, Eq, Structural, Debug)]
pub enum ConnStatus {
    /// Never opened.
    Idle,
    /// Open: frames may be written and read.
    Open,
    /// Lost, and due to be reopened after a pause.
    Retrying,
    /// Lost for good, with the fault that used up the last attempt.
    Failed(ConnError),
    /// Shut by the session.
    Closed,
}

/// What to do about a fault.
#[derive(Clone, Copy, PartialEq, Eq, Structural, Debug)]
pub enum Retry {
    /// Pause this long, then reopen the stream.
    After { delay_ms: u64 },
    /// No attempt is left: the transport is lost, with this fault.
    GiveUp(ConnError),
}

/// The channel as a mathematical value.
pub struct ConnView {
    pub status: ConnStatus,
    /// Faults since the stream was last open.
    pub failures: u32,
    pub policy: BackoffPolicy,
    /// Bytes read that belong to a frame not yet complete.
    pub buffered: Seq<u8>,
}

impl ConnView {
    /// A channel that has not been opened.
    pub open spec fn idle(policy: BackoffPolicy) -> ConnView {
        ConnView { status: ConnStatus::Idle, failures: 0, policy, buffered: Seq::empty() }
    }

    /// Whether the channel can still change: neither lost for good nor shut.
    pub open spec fn is_live(self) -> bool {
        !(self.status is Failed) && !(self.status is Closed)
    }

    /// What a fault leads to: another attempt while the policy allows one,
    /// the end of the transport after that. The pause before attempt number
    /// `k`, counted from zero, is the base of the policy doubled `k` times,
    /// and at most its cap. A channel that is lost or shut stays so.
    pub open spec fn on_fault(self, err: ConnError) -> Retry {
        match self.status {
            ConnStatus::Failed(first) => Retry::GiveUp(first),
            ConnStatus::Closed => Retry::GiveUp(ConnError::Closed),
            _ => if self.failures < self.policy.max_attempts {
                Retry::After { delay_ms: self.policy.spec_delay_ms(self.failures as nat) as u64 }
            } else {
                Retry::GiveUp(err)
            },
        }
    }

    /// The channel after the stream was opened: the count of faults starts
    /// over and what was left of a half-read frame is dropped.
    pub open spec fn opened(self) -> ConnView {
        if self.is_live() {
            ConnView { status: ConnStatus::Open, failures: 0, buffered: Seq::empty(), ..self }
        } else {
            self
        }
    }

    /// The channel after a fault.
    pub open spec fn failed(self, err: ConnError) -> ConnView {
        if !self.is_live() {
            self
        } else if self.failures < self.policy.max_attempts {
            ConnView {
                status: ConnStatus::Retrying,
                failures: (self.failures + 1) as u32,
                buffered: Seq::empty(),
                ..self
            }
        } else {
            ConnView { status: ConnStatus::Failed(err), ..self }
        }
    }

    /// The channel after it was shut. A channel lost for good keeps its
    /// fault.
    pub open spec fn closed(self) -> ConnView {
        if self.status is Failed {
            self
        } else {
            ConnView { status: ConnStatus::Closed, ..self }
        }
    }

    /// The error with which a channel that is not open refuses to write or
    /// read.
    pub open spec fn refusal(self) -> ConnError {
        match self.status {
            ConnStatus::Failed(e) => e,
            _ => ConnError::Closed,
        }
    }

    /// The frames completed by `chunk`, oldest first.
    pub open spec fn arrivals(self, chunk: Seq<u8>) -> Seq<Seq<u8>> {
        spec_parse_all(self.buffered + chunk)
    }

    /// The channel after `chunk` was read from the stream.
    pub open spec fn received(self, chunk: Seq<u8>) -> ConnView {
        if self.status is Open {
            ConnView { buffered: spec_residue(self.buffered + chunk), ..self }
        } else {
            self
        }
    }
}

/// The reconnect budget is kept. Every fault on a live channel either uses
/// up one attempt or ends the channel, and a channel that has seen as many
/// faults in a row as the policy allows attempts is ended by the next.
pub proof fn lemma_retry_budget(c: ConnView, err: ConnError)
    requires
        c.is_live(),
        c.failures <= c.policy.max_attempts,
    ensures
        c.failed(err).failures <= c.policy.max_attempts,
        c.on_fault(err) is After <==> c.failures < c.policy.max_attempts,
        c.on_fault(err) is After ==> c.failed(err).failures == c.failures + 1 && c.failed(
            err,
        ).is_live(),
        c.on_fault(err) is GiveUp ==> c.on_fault(err) == Retry::GiveUp(err) && c.failed(err).status
            == ConnStatus::Failed(err),
        c.on_fault(err) matches Retry::After { delay_ms } ==> delay_ms <= c.policy.cap_ms,
{
    crate::settings::lemma_delay_settles(c.policy, c.failures as nat, c.failures as nat);
}

/// Framing fidelity from end to end. What one side hands to `send`, the
/// other side's `receive` hands out again, byte for byte and as one frame,
/// once the bytes have arrived, however the stream cut them.
pub proof fn lemma_send_receive_round_trip(peer: ConnView, body: Seq<u8>, cut: int)
    requires
        peer.status is Open,
        peer.buffered == Seq::<u8>::empty(),
        body.len() <= MAX_BODY_LEN,
        0 <= cut <= spec_frame(body).len(),
    ensures
        peer.arrivals(spec_frame(body)) == seq![body],
        peer.received(spec_frame(body)).buffered == Seq::<u8>::empty(),
        ({
            let first = spec_frame(body).subrange(0, cut);
            let rest = spec_frame(body).subrange(cut, spec_frame(body).len() as int);
            peer.arrivals(first) + peer.received(first).arrivals(rest) == seq![body]
        }),
{
    let frame = spec_frame(body);
    let first = frame.subrange(0, cut);
    let rest = frame.subrange(cut, frame.len() as int);
    let one = seq![body];
    crate::frame::lemma_frames_round_trip(one);
    assert(one.drop_first().len() == 0);
    assert(crate::frame::spec_frames(one.drop_first()) =~= Seq::<u8>::empty());
    assert(one[0] == body);
    assert(crate::frame::spec_frames(one) =~= frame);
    assert(Seq::<u8>::empty() + frame =~= frame);
    assert(Seq::<u8>::empty() + first =~= first);
    assert(first + rest =~= frame);
    crate::frame::lemma_parse_all_resumes(first, rest);
}

/// A channel lost for good stays lost, with the fault that ended it.
pub proof fn lemma_loss_is_final(c: ConnView, err: ConnError)
    requires
        c.status is Failed,
    ensures
        c.failed(err) == c,
        c.opened() == c,
        c.closed() == c,
        c.on_fault(err) == Retry::GiveUp(c.status->Failed_0),
{
}

/// One channel to the service.
pub struct Connection {
    status: ConnStatus,
    failures: u32,
    policy: BackoffPolicy,
    reader: FrameReader,
}

impl View for Connection {
    type V = ConnView;

    closed spec fn view(&self) -> ConnView {
        ConnView {
            status: self.status,
            failures: self.failures,
            policy: self.policy,
            buffered: self.reader@,
        }
    }
}

impl Connection {
    /// A channel that has not been opened.
    pub fn new(policy: BackoffPolicy) -> (c: Connection)
        ensures
            c@ == ConnView::idle(policy),
    {
        Connection { status: ConnStatus::Idle, failures: 0, policy, reader: FrameReader::new() }
    }

    /// Where the channel stands.
    pub fn status(&self) -> (s: ConnStatus)
        ensures
            s == self@.status,
    {
        self.status
    }

    /// Faults since the stream was last open.
    pub fn failures(&self) -> (n: u32)
        ensures
            n == self@.failures,
    {
        self.failures
    }

    /// The policy that the channel reconnects by.
    pub fn policy(&self) -> (p: BackoffPolicy)
        ensures
            p == self@.policy,
    {
        self.policy
    }

    /// The stream has been opened, for the first time or again. A channel
    /// that is lost for good or shut stays so.
    pub fn opened(&mut self)
        ensures
            final(self)@ == old(self)@.opened(),
    {
        match self.status {
            ConnStatus::Failed(_) | ConnStatus::Closed => {},
            _ => {
                self.status = ConnStatus::Open;
                self.failures = 0;
                self.reader = FrameReader::new();
            },
        }
    }

    /// The stream has failed, or could not be reopened. Says whether to try
    /// again and after what pause; once the attempts are used up the channel
    /// is lost for good and keeps the fault that ended it.
    pub fn failed(&mut self, err: ConnError) -> (r: Retry)
        ensures
            r == old(self)@.on_fault(err),
            final(self)@ == old(self)@.failed(err),
    {
        match self.status {
            ConnStatus::Failed(first) => Retry::GiveUp(first),
            ConnStatus::Closed => Retry::GiveUp(ConnError::Closed),
            _ => {
                if self.failures < self.policy.max_attempts {
                    let delay_ms: u64 = self.policy.delay_ms(self.failures);
                    self.failures = self.failures + 1;
                    self.status = ConnStatus::Retrying;
                    self.reader = FrameReader::new();
                    Retry::After { delay_ms }
                } else {
                    self.status = ConnStatus::Failed(err);
                    Retry::GiveUp(err)
                }
            },
        }
    }

    /// Shuts the channel.
    pub fn close(&mut self)
        ensures
            final(self)@ == old(self)@.closed(),
    {
        match self.status {
            ConnStatus::Failed(_) => {},
            _ => {
                self.status = ConnStatus::Closed;
            },
        }
    }

    /// The bytes to write so that the peer receives `body` as one frame. The
    /// frame is handed over whole or not at all: on an open channel it is the
    /// length of `body` followed by `body`; on any other channel, and for a
    /// body too long to frame, nothing is to be written.
    pub fn send(&self, body: &[u8]) -> (r: Result<Vec<u8>, ConnError>)
        ensures
            match r {
                Ok(frame) => self@.status is Open && body@.len() <= MAX_BODY_LEN && frame@
                    == spec_frame(body@),
                Err(e) => if self@.status is Open {
                    body@.len() > MAX_BODY_LEN && e == ConnError::Io
                } else {
                    e == self@.refusal()
                },
            },
    {
        match self.status {
            ConnStatus::Open => match encode_frame(body) {
                Ok(frame) => Ok(frame),
                Err(_) => Err(ConnError::Io),
            },
            ConnStatus::Failed(e) => Err(e),
            _ => Err(ConnError::Closed),
        }
    }

    /// Takes in bytes that were read from the stream and hands out the bodies
    /// of the frames they complete, in the order in which they arrived. The
    /// start of a frame still under way is kept for the next call. On a
    /// channel that is not open nothing is taken in.
    pub fn receive(&mut self, chunk: &[u8]) -> (r: Result<Vec<Vec<u8>>, ConnError>)
        ensures
            final(self)@ == old(self)@.received(chunk@),
            match r {
                Ok(bodies) => {
                    &&& old(self)@.status is Open
                    &&& bodies@.len() == old(self)@.arrivals(chunk@).len()
                    &&& forall|i: int|
                        0 <= i < bodies@.len() ==> (#[trigger] bodies@[i])@ == old(self)@.arrivals(
                            chunk@,
                        )[i]
                },
                Err(e) => !(old(self)@.status is Open) && e == old(self)@.refusal(),
            },
    {
        match self.status {
            ConnStatus::Open => {
                self.reader.feed(chunk);
                Ok(self.reader.drain())
            },
            ConnStatus::Failed(e) => Err(e),
            _ => Err(ConnError::Closed),
        }
    }
}

} // verus!
