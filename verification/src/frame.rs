//! Length-delimited framing: every message on the stream is a four-byte
//! big-endian length followed by that many bytes of body.

use vstd::prelude::*;
use vstd::slice::slice_to_vec;
use crate::wire::{get_be32, lemma_be32_round_trip, put_be32, spec_be32, spec_from_be32};

verus! {

/// Bytes taken by the length prefix.
pub const PREFIX_LEN: usize = 4;

/// The longest body that a frame can announce.
pub const MAX_BODY_LEN: usize = 0xFFFF_FFFF;

/// Why a body could not be framed.
#[derive(Clone, Copy, PartialEq, Eq, Structural, Debug)]
pub enum FrameError {
    /// The body is longer than a four-byte length can announce.
    TooLarge,
}

/// The frame that carries `body`.
pub open spec fn spec_frame(body: Seq<u8>) -> Seq<u8>
    recommends
        body.len() <= MAX_BODY_LEN,
{
    spec_be32(body.len() as u32) + body
}

/// The first frame in `buf`: its body and the number of bytes it occupies, or
/// `None` while `buf` does not yet hold a whole frame.
pub open spec fn spec_parse(buf: Seq<u8>) -> Option<(Seq<u8>, nat)> {
    if buf.len() < 4 {
        None
    } else {
        let n = spec_from_be32(buf.subrange(0, 4)) as nat;
        if buf.len() < 4 + n {
            None
        } else {
            Some((buf.subrange(4, 4 + n as int), 4 + n))
        }
    }
}

/// The frames of `bodies`, one after another.
pub open spec fn spec_frames(bodies: Seq<Seq<u8>>) -> Seq<u8>
    decreases bodies.len(),
{
    if bodies.len() == 0 {
        Seq::empty()
    } else {
        spec_frame(bodies[0]) + spec_frames(bodies.drop_first())
    }
}

/// The bodies of all whole frames at the start of `buf`, in order.
pub open spec fn spec_parse_all(buf: Seq<u8>) -> Seq<Seq<u8>>
    decreases buf.len(),
{
    match spec_parse(buf) {
        None => Seq::empty(),
        Some((body, used)) => seq![body] + spec_parse_all(buf.subrange(used as int, buf.len() as int)),
    }
}

/// What is left of `buf` behind its whole frames: the start of a frame that
/// has not fully arrived.
pub open spec fn spec_residue(buf: Seq<u8>) -> Seq<u8>
    decreases buf.len(),
{
    match spec_parse(buf) {
        None => buf,
        Some((body, used)) => spec_residue(buf.subrange(used as int, buf.len() as int)),
    }
}

/// Framing fidelity: a frame followed by anything parses to exactly the body
/// that was framed, and to the number of bytes the frame takes.
pub proof fn lemma_frame_round_trip(body: Seq<u8>, rest: Seq<u8>)
    requires
        body.len() <= MAX_BODY_LEN,
    ensures
        spec_frame(body).len() == 4 + body.len(),
        spec_parse(spec_frame(body) + rest) == Some((body, 4 + body.len())),
{
    let n = body.len() as u32;
    let buf = spec_frame(body) + rest;
    lemma_be32_round_trip(n, Seq::empty());
    assert(buf.subrange(0, 4) =~= spec_be32(n) + Seq::<u8>::empty());
    assert(buf.subrange(4, 4 + body.len() as int) =~= body);
}

/// What parses as a frame is the frame of its body: no two byte strings parse
/// to the same body and length.
pub proof fn lemma_parse_inverse(buf: Seq<u8>)
    requires
        spec_parse(buf) is Some,
    ensures
        spec_parse(buf).unwrap().0.len() <= MAX_BODY_LEN,
        buf.subrange(0, spec_parse(buf).unwrap().1 as int) == spec_frame(spec_parse(buf).unwrap().0),
{
    let (body, used) = spec_parse(buf).unwrap();
    crate::wire::lemma_be32_inverse(buf.subrange(0, 4));
    assert(buf.subrange(0, 4).subrange(0, 4) =~= buf.subrange(0, 4));
    assert(buf.subrange(0, used as int) =~= spec_frame(body));
}

/// A whole frame stays the first frame when more bytes arrive behind it.
pub proof fn lemma_parse_stable(buf: Seq<u8>, more: Seq<u8>)
    requires
        spec_parse(buf) is Some,
    ensures
        spec_parse(buf + more) == spec_parse(buf),
{
    let (body, used) = spec_parse(buf).unwrap();
    assert((buf + more).subrange(0, 4) =~= buf.subrange(0, 4));
    assert((buf + more).subrange(4, used as int) =~= buf.subrange(4, used as int));
}

/// A stream of frames parses back to the bodies that were framed, in the
/// order in which they were framed, with nothing left over.
pub proof fn lemma_frames_round_trip(bodies: Seq<Seq<u8>>)
    requires
        forall|i: int| 0 <= i < bodies.len() ==> (#[trigger] bodies[i]).len() <= MAX_BODY_LEN,
    ensures
        spec_parse_all(spec_frames(bodies)) == bodies,
        spec_residue(spec_frames(bodies)) == Seq::<u8>::empty(),
    decreases bodies.len(),
{
    if bodies.len() == 0 {
        assert(spec_parse_all(Seq::<u8>::empty()) =~= bodies);
    } else {
        let tail = bodies.drop_first();
        let buf = spec_frames(bodies);
        lemma_frame_round_trip(bodies[0], spec_frames(tail));
        assert forall|i: int| 0 <= i < tail.len() implies (#[trigger] tail[i]).len()
            <= MAX_BODY_LEN by {
            assert(tail[i] == bodies[i + 1]);
        }
        lemma_frames_round_trip(tail);
        assert(buf.subrange(4 + bodies[0].len() as int, buf.len() as int) =~= spec_frames(tail));
        assert(seq![bodies[0]] + tail =~= bodies);
    }
}

/// Reassembly does not depend on how the stream was cut: parsing what has
/// arrived, keeping the residue and parsing again once more has arrived finds
/// the same frames as parsing everything at once.
pub proof fn lemma_parse_all_resumes(buf: Seq<u8>, more: Seq<u8>)
    ensures
        spec_parse_all(buf + more) == spec_parse_all(buf) + spec_parse_all(
            spec_residue(buf) + more,
        ),
        spec_residue(buf + more) == spec_residue(spec_residue(buf) + more),
    decreases buf.len(),
{
    match spec_parse(buf) {
        None => {
            assert(spec_parse_all(buf) + spec_parse_all(buf + more) =~= spec_parse_all(
                buf + more,
            ));
        },
        Some((body, used)) => {
            lemma_parse_stable(buf, more);
            let rest = buf.subrange(used as int, buf.len() as int);
            let all = buf + more;
            assert(all.subrange(used as int, all.len() as int) =~= rest + more);
            lemma_parse_all_resumes(rest, more);
            assert(seq![body] + (spec_parse_all(rest) + spec_parse_all(spec_residue(rest) + more))
                =~= (seq![body] + spec_parse_all(rest)) + spec_parse_all(
                spec_residue(rest) + more,
            ));
        },
    }
}

/// Frames `body`: the bytes to put on the stream so that the peer reads
/// exactly `body`. Fails only on a body too long to announce.
pub fn encode_frame(body: &[u8]) -> (r: Result<Vec<u8>, FrameError>)
    ensures
        body@.len() <= MAX_BODY_LEN ==> r is Ok && r.unwrap()@ == spec_frame(body@),
        body@.len() > MAX_BODY_LEN ==> r == Err::<Vec<u8>, FrameError>(FrameError::TooLarge),
{
    let len: usize = body.len();
    if len > MAX_BODY_LEN {
        return Err(FrameError::TooLarge);
    }
    let mut out: Vec<u8> = Vec::new();
    put_be32(&mut out, len as u32);
    let mut copy = slice_to_vec(body);
    out.append(&mut copy);
    assert(out@ =~= spec_frame(body@));
    Ok(out)
}

/// Reads the first frame of `buf`: its body and how many bytes of `buf` it
/// took. `None` while the frame has not fully arrived.
pub fn decode_frame(buf: &[u8]) -> (r: Option<(Vec<u8>, usize)>)
    ensures
        match spec_parse(buf@) {
            Some((body, used)) => r is Some && r.unwrap().0@ == body && r.unwrap().1 == used,
            None => r is None,
        },
{
    let len: usize = buf.len();
    if len < PREFIX_LEN {
        return None;
    }
    let n: u32 = get_be32(buf, 0);
    if ((len - PREFIX_LEN) as u64) < n as u64 {
        return None;
    }
    let end: usize = PREFIX_LEN + n as usize;
    let body = slice_to_vec(&buf[PREFIX_LEN..end]);
    Some((body, end))
}

/// Reassembles frames from a stream that arrives in pieces.
pub struct FrameReader {
    buf: Vec<u8>,
}

impl View for FrameReader {
    type V = Seq<u8>;

    /// The bytes that have arrived and belong to no frame handed out yet.
    closed spec fn view(&self) -> Seq<u8> {
        self.buf@
    }
}

impl FrameReader {
    /// A reader that has seen nothing.
    pub fn new() -> (r: FrameReader)
        ensures
            r@ == Seq::<u8>::empty(),
    {
        FrameReader { buf: Vec::new() }
    }

    /// Takes in the next piece of the stream.
    pub fn feed(&mut self, chunk: &[u8])
        ensures
            final(self)@ == old(self)@ + chunk@,
    {
        let mut copy = slice_to_vec(chunk);
        self.buf.append(&mut copy);
    }

    /// Number of bytes held back.
    pub fn buffered(&self) -> (n: usize)
        ensures
            n == self@.len(),
    {
        self.buf.len()
    }

    /// Hands out the next whole frame, if one has arrived, and forgets its
    /// bytes.
    pub fn next_frame(&mut self) -> (r: Option<Vec<u8>>)
        ensures
            match spec_parse(old(self)@) {
                Some((body, used)) => r is Some && r.unwrap()@ == body && final(self)@ == old(self)@.subrange(used as int, old(self)@.len() as int),
                None => r is None && final(self)@ == old(self)@,
            },
    {
        match decode_frame(self.buf.as_slice()) {
            None => None,
            Some((body, used)) => {
                let rest = self.buf.split_off(used);
                self.buf = rest;
                Some(body)
            },
        }
    }

    /// Hands out every whole frame that has arrived, in order, and keeps the
    /// start of the frame that has not.
    pub fn drain(&mut self) -> (frames: Vec<Vec<u8>>)
        ensures
            frames@.len() == spec_parse_all(old(self)@).len(),
            forall|i: int|
                0 <= i < frames@.len() ==> (#[trigger] frames@[i])@ == spec_parse_all(
                    old(self)@,
                )[i],
            final(self)@ == spec_residue(old(self)@),
    {
        let mut frames: Vec<Vec<u8>> = Vec::new();
        let ghost done: Seq<Seq<u8>> = Seq::empty();
        loop
            invariant
                frames@.len() == done.len(),
                forall|i: int| 0 <= i < frames@.len() ==> (#[trigger] frames@[i])@ == done[i],
                spec_parse_all(old(self)@) == done + spec_parse_all(self@),
                spec_residue(old(self)@) == spec_residue(self@),
            ensures
                frames@.len() == spec_parse_all(old(self)@).len(),
                forall|i: int|
                    0 <= i < frames@.len() ==> (#[trigger] frames@[i])@ == spec_parse_all(
                        old(self)@,
                    )[i],
                self@ == spec_residue(old(self)@),
            decreases self@.len(),
        {
            let ghost before = self@;
            match self.next_frame() {
                None => {
                    assert(done + Seq::<Seq<u8>>::empty() =~= done);
                    break ;
                },
                Some(body) => {
                    proof {
                        assert((done.push(body@)) + spec_parse_all(self@) =~= done + (seq![body@]
                            + spec_parse_all(self@)));
                        done = done.push(body@);
                    }
                    frames.push(body);
                },
            }
        }
        frames
    }
}

} // verus!
