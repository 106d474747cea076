//! Records and their envelope: the part of every message that the client
//! itself reads and writes. The payload behind the envelope belongs to a
//! schema kept elsewhere and passes through as bytes.

use vstd::prelude::*;
use vstd::slice::slice_to_vec;
use crate::frame::{
    encode_frame, lemma_frame_round_trip, spec_frame, spec_parse, FrameError, MAX_BODY_LEN,
    PREFIX_LEN,
};
use crate::wire::{
    get_be32, get_be64, lemma_be32_round_trip, lemma_be64_round_trip, put_be32, put_be64,
    spec_be32, spec_be64, spec_from_be32, spec_from_be64,
};

verus! {

/// The envelope layout that this client writes and accepts.
pub const ENVELOPE_VERSION: u8 = 1;

/// Bytes taken by the envelope in front of the payload: version, kind, run
/// and sequence number.
pub const HEADER_LEN: usize = 18;

/// The longest payload that still fits a frame.
pub const MAX_PAYLOAD_LEN: usize = MAX_BODY_LEN - HEADER_LEN;

/// Bytes taken by the payload of a `RunExit` record.
pub const EXIT_PAYLOAD_LEN: usize = 12;

/// What a record reports.
#[derive(Clone, Copy, PartialEq, Eq, Structural, Debug)]
pub enum RecordKind {
    MetricPoint,
    ConfigUpdate,
    Summary,
    Telemetry,
    RunExit,
    /// A kind that a later schema added; carried along untouched.
    Unknown(u8),
}

impl RecordKind {
    /// The byte that announces this kind in an envelope.
    pub open spec fn spec_tag(self) -> u8 {
        match self {
            RecordKind::MetricPoint => 1,
            RecordKind::ConfigUpdate => 2,
            RecordKind::Summary => 3,
            RecordKind::Telemetry => 4,
            RecordKind::RunExit => 5,
            RecordKind::Unknown(t) => t,
        }
    }

    /// The kind that a byte announces.
    pub open spec fn spec_from_tag(tag: u8) -> RecordKind {
        if tag == 1 {
            RecordKind::MetricPoint
        } else if tag == 2 {
            RecordKind::ConfigUpdate
        } else if tag == 3 {
            RecordKind::Summary
        } else if tag == 4 {
            RecordKind::Telemetry
        } else if tag == 5 {
            RecordKind::RunExit
        } else {
            RecordKind::Unknown(tag)
        }
    }

    /// An unknown kind must not hide a known one.
    pub open spec fn wf(self) -> bool {
        match self {
            RecordKind::Unknown(t) => !(1 <= t <= 5),
            _ => true,
        }
    }

    /// Whether the record comes from the caller's data and counts against the
    /// queue bound, as opposed to the records that open and close a run.
    pub open spec fn spec_is_data(self) -> bool {
        self is MetricPoint || self is ConfigUpdate || self is Summary
    }

    /// The byte that announces this kind in an envelope.
    #[verifier::when_used_as_spec(spec_tag)]
    pub fn tag(self) -> (t: u8)
        ensures
            t == self.spec_tag(),
    {
        match self {
            RecordKind::MetricPoint => 1,
            RecordKind::ConfigUpdate => 2,
            RecordKind::Summary => 3,
            RecordKind::Telemetry => 4,
            RecordKind::RunExit => 5,
            RecordKind::Unknown(t) => t,
        }
    }

    /// The kind that a byte announces; a byte that announces none of the
    /// known kinds is kept as an unknown kind.
    pub fn from_tag(tag: u8) -> (k: RecordKind)
        ensures
            k == RecordKind::spec_from_tag(tag),
            k.wf(),
            k.spec_tag() == tag,
    {
        if tag == 1 {
            RecordKind::MetricPoint
        } else if tag == 2 {
            RecordKind::ConfigUpdate
        } else if tag == 3 {
            RecordKind::Summary
        } else if tag == 4 {
            RecordKind::Telemetry
        } else if tag == 5 {
            RecordKind::RunExit
        } else {
            RecordKind::Unknown(tag)
        }
    }

    /// Whether the record comes from the caller's data.
    #[verifier::when_used_as_spec(spec_is_data)]
    pub fn is_data(self) -> (b: bool)
        ensures
            b == self.spec_is_data(),
    {
        match self {
            RecordKind::MetricPoint | RecordKind::ConfigUpdate | RecordKind::Summary => true,
            _ => false,
        }
    }
}

/// One message from a run to the service.
#[derive(Clone, PartialEq, Eq, Debug)]
pub struct Record {
    pub kind: RecordKind,
    /// The run that the record belongs to.
    pub run_id: u64,
    /// Position of the record among those of its run.
    pub seq: u64,
    /// Schema-defined content, opaque here.
    pub payload: Vec<u8>,
}

/// A record as a mathematical value.
pub struct RecordView {
    pub kind: RecordKind,
    pub run_id: u64,
    pub seq: u64,
    pub payload: Seq<u8>,
}

impl View for Record {
    type V = RecordView;

    open spec fn view(&self) -> RecordView {
        RecordView { kind: self.kind, run_id: self.run_id, seq: self.seq, payload: self.payload@ }
    }
}

/// Why bytes could not be read as an envelope.
#[derive(Clone, Copy, PartialEq, Eq, Structural, Debug)]
pub enum DecodeError {
    /// Fewer bytes than an envelope takes.
    Truncated,
    /// An envelope layout that this client does not read.
    UnsupportedVersion(u8),
}

/// The body of the frame that carries `r`.
pub open spec fn spec_envelope(r: RecordView) -> Seq<u8> {
    seq![ENVELOPE_VERSION, r.kind.spec_tag()] + spec_be64(r.run_id) + spec_be64(r.seq) + r.payload
}

/// The record that a frame body carries.
pub open spec fn spec_open(body: Seq<u8>) -> Result<RecordView, DecodeError> {
    if body.len() < HEADER_LEN {
        Err(DecodeError::Truncated)
    } else if body[0] != ENVELOPE_VERSION {
        Err(DecodeError::UnsupportedVersion(body[0]))
    } else {
        Ok(
            RecordView {
                kind: RecordKind::spec_from_tag(body[1]),
                run_id: spec_from_be64(body.subrange(2, 10)),
                seq: spec_from_be64(body.subrange(10, 18)),
                payload: body.subrange(18, body.len() as int),
            },
        )
    }
}

/// The payload of the record that ends a run.
pub open spec fn spec_exit_payload(exit_code: i32, timestamp: u64) -> Seq<u8> {
    spec_be32(exit_code as u32) + spec_be64(timestamp)
}

/// Exit code and timestamp held by the payload of a `RunExit` record.
pub open spec fn spec_exit_info(payload: Seq<u8>) -> Option<(i32, u64)> {
    if payload.len() == EXIT_PAYLOAD_LEN {
        Some(
            (
                spec_from_be32(payload.subrange(0, 4)) as i32,
                spec_from_be64(payload.subrange(4, 12)),
            ),
        )
    } else {
        None
    }
}

/// An envelope opens to the record that was put into it: kind, run, sequence
/// number and every byte of the payload.
pub proof fn lemma_envelope_round_trip(r: RecordView)
    requires
        r.kind.wf(),
    ensures
        spec_envelope(r).len() == HEADER_LEN + r.payload.len(),
        spec_open(spec_envelope(r)) == Ok::<RecordView, DecodeError>(r),
{
    let body = spec_envelope(r);
    lemma_be64_round_trip(r.run_id, Seq::empty());
    lemma_be64_round_trip(r.seq, Seq::empty());
    assert(body.subrange(2, 10) =~= spec_be64(r.run_id) + Seq::<u8>::empty());
    assert(body.subrange(10, 18) =~= spec_be64(r.seq) + Seq::<u8>::empty());
    assert(body.subrange(18, body.len() as int) =~= r.payload);
    assert(body[0] == ENVELOPE_VERSION);
    assert(body[1] == r.kind.spec_tag());
}

/// What is written to the stream for a record is read back as that record.
/// The frame of the record's envelope, followed by anything, parses to the
/// envelope, and the envelope opens to the record.
pub proof fn lemma_record_frame_round_trip(r: RecordView, rest: Seq<u8>)
    requires
        r.kind.wf(),
        r.payload.len() <= MAX_PAYLOAD_LEN,
    ensures
        spec_parse(spec_frame(spec_envelope(r)) + rest) == Some(
            (spec_envelope(r), (PREFIX_LEN + HEADER_LEN + r.payload.len()) as nat),
        ),
        spec_open(spec_envelope(r)) == Ok::<RecordView, DecodeError>(r),
{
    lemma_envelope_round_trip(r);
    lemma_frame_round_trip(spec_envelope(r), rest);
}

/// The exit payload gives back the exit code and the timestamp it was made
/// from.
pub proof fn lemma_exit_round_trip(exit_code: i32, timestamp: u64)
    ensures
        spec_exit_payload(exit_code, timestamp).len() == EXIT_PAYLOAD_LEN,
        spec_exit_info(spec_exit_payload(exit_code, timestamp)) == Some((exit_code, timestamp)),
{
    let p = spec_exit_payload(exit_code, timestamp);
    let u = exit_code as u32;
    lemma_be32_round_trip(u, Seq::empty());
    lemma_be64_round_trip(timestamp, Seq::empty());
    assert(p.subrange(0, 4) =~= spec_be32(u) + Seq::<u8>::empty());
    assert(p.subrange(4, 12) =~= spec_be64(timestamp) + Seq::<u8>::empty());
    assert(u as i32 == exit_code) by (bit_vector)
        requires
            u == exit_code as u32,
    ;
}

/// Builds the payload of the record that ends a run.
pub fn exit_payload(exit_code: i32, timestamp: u64) -> (payload: Vec<u8>)
    ensures
        payload@ == spec_exit_payload(exit_code, timestamp),
        payload@.len() == EXIT_PAYLOAD_LEN,
{
    let mut payload: Vec<u8> = Vec::new();
    put_be32(&mut payload, exit_code as u32);
    put_be64(&mut payload, timestamp);
    assert(payload@ =~= spec_exit_payload(exit_code, timestamp));
    payload
}

impl Record {
    /// A copy with the same content.
    pub fn duplicate(&self) -> (r: Record)
        ensures
            r@ == self@,
    {
        Record {
            kind: self.kind,
            run_id: self.run_id,
            seq: self.seq,
            payload: slice_to_vec(self.payload.as_slice()),
        }
    }

    /// The record that ends a run.
    pub fn exit(run_id: u64, seq: u64, exit_code: i32, timestamp: u64) -> (r: Record)
        ensures
            r@ == (RecordView {
                kind: RecordKind::RunExit,
                run_id,
                seq,
                payload: spec_exit_payload(exit_code, timestamp),
            }),
    {
        Record {
            kind: RecordKind::RunExit,
            run_id,
            seq,
            payload: exit_payload(exit_code, timestamp),
        }
    }

    /// Exit code and timestamp of a `RunExit` record; `None` for every other
    /// record and for a payload of the wrong length.
    pub fn exit_info(&self) -> (r: Option<(i32, u64)>)
        ensures
            r == if self.kind is RunExit {
                spec_exit_info(self.payload@)
            } else {
                None
            },
    {
        match self.kind {
            RecordKind::RunExit => {
                if self.payload.len() != EXIT_PAYLOAD_LEN {
                    return None;
                }
                let code: u32 = get_be32(self.payload.as_slice(), 0);
                let timestamp: u64 = get_be64(self.payload.as_slice(), 4);
                Some((code as i32, timestamp))
            },
            _ => None,
        }
    }

    /// The frame body that carries this record.
    pub fn encode(&self) -> (body: Vec<u8>)
        ensures
            body@ == spec_envelope(self@),
    {
        let mut body: Vec<u8> = Vec::new();
        body.push(ENVELOPE_VERSION);
        body.push(self.kind.tag());
        put_be64(&mut body, self.run_id);
        put_be64(&mut body, self.seq);
        let mut copy = slice_to_vec(self.payload.as_slice());
        body.append(&mut copy);
        assert(body@ =~= spec_envelope(self@));
        body
    }

    /// Reads a frame body as a record. A kind that this client does not know
    /// is kept as it came.
    pub fn decode(body: &[u8]) -> (r: Result<Record, DecodeError>)
        ensures
            match spec_open(body@) {
                Ok(v) => r is Ok && r.unwrap()@ == v && v.kind.wf(),
                Err(e) => r == Err::<Record, DecodeError>(e),
            },
    {
        let len: usize = body.len();
        if len < HEADER_LEN {
            return Err(DecodeError::Truncated);
        }
        if body[0] != ENVELOPE_VERSION {
            return Err(DecodeError::UnsupportedVersion(body[0]));
        }
        let kind = RecordKind::from_tag(body[1]);
        let run_id: u64 = get_be64(body, 2);
        let seq: u64 = get_be64(body, 10);
        let payload = slice_to_vec(&body[HEADER_LEN..len]);
        Ok(Record { kind, run_id, seq, payload })
    }

    /// The bytes to put on the stream for this record: its envelope, framed.
    /// Fails only on a payload too long for a frame.
    pub fn to_frame(&self) -> (r: Result<Vec<u8>, FrameError>)
        ensures
            self.payload@.len() <= MAX_PAYLOAD_LEN ==> r is Ok && r.unwrap()@ == spec_frame(
                spec_envelope(self@),
            ),
            self.payload@.len() > MAX_PAYLOAD_LEN ==> r == Err::<Vec<u8>, FrameError>(
                FrameError::TooLarge,
            ),
    {
        let body = self.encode();
        encode_frame(body.as_slice())
    }
}

} // verus!
