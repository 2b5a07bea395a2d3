//! Reassembly of one inbound frame from the reads of a byte stream.
//!
//! A read may carry any part of a frame, so the decoder first gathers the
//! four header bytes, then the declared number of body bytes. Bytes that
//! arrive after the end of the frame in the same read are dropped.

use vstd::prelude::*;

use crate::frame::{be_u32_bytes, be_u32_value, frame_of, MAX_BODY_LEN, lemma_be_u32_bytes_of_value, lemma_be_u32_round_trip, parse_headers};

verus! {

/// Whether the bytes received so far already hold a whole frame.
pub open spec fn holds_frame(received: Seq<u8>) -> bool {
    received.len() >= 4 && received.len() >= 4 + be_u32_value(received)
}

/// The body of the frame at the start of `received`.
pub open spec fn frame_body(received: Seq<u8>) -> Seq<u8> {
    received.subrange(4, 4 + be_u32_value(received) as int)
}

/// Where decoding stands after some reads.
pub enum ReadOutcome {
    /// No frame is whole yet; these are the bytes received so far.
    Waiting(Seq<u8>),
    /// A whole frame arrived, with this body.
    Frame(Seq<u8>),
    /// A read returned no bytes before the frame was whole.
    Closed,
}

/// Outcome of one more read `chunk`, after `received` has arrived.
pub open spec fn after_read(received: Seq<u8>, chunk: Seq<u8>) -> ReadOutcome {
    if chunk.len() == 0 {
        ReadOutcome::Closed
    } else if holds_frame(received + chunk) {
        ReadOutcome::Frame(frame_body(received + chunk))
    } else {
        ReadOutcome::Waiting(received + chunk)
    }
}

/// Outcome of the reads `reads`, in order, after `received` has arrived;
/// the reads after the one that ends decoding are never made.
pub open spec fn after_reads(received: Seq<u8>, reads: Seq<Seq<u8>>) -> ReadOutcome
    decreases reads.len(),
{
    if reads.len() == 0 {
        ReadOutcome::Waiting(received)
    } else {
        match after_read(received, reads[0]) {
            ReadOutcome::Waiting(next) => after_reads(next, reads.drop_first()),
            done => done,
        }
    }
}

/// The state of one frame being read: the header bytes while the length is
/// still unknown, then the length and the body bytes gathered so far.
pub struct FrameDecoder {
    header: Vec<u8>,
    length: Option<u32>,
    body: Vec<u8>,
}

/// What a read did to a decoder.
pub enum DecodeStep {
    /// More bytes are needed; the decoder to hand the next read to.
    Pending(FrameDecoder),
    /// The frame is whole; its body.
    Complete(Vec<u8>),
    /// The read returned no bytes: the peer closed the stream mid-frame.
    Closed,
}

impl View for FrameDecoder {
    type V = Seq<u8>;

    /// All bytes of the frame received so far.
    closed spec fn view(&self) -> Seq<u8> {
        match self.length {
            None => self.header@,
            Some(l) => be_u32_bytes(l as nat) + self.body@,
        }
    }
}

impl DecodeStep {
    /// The step as a decoding outcome over byte sequences.
    pub open spec fn outcome(&self) -> ReadOutcome {
        match self {
            DecodeStep::Pending(d) => ReadOutcome::Waiting(d@),
            DecodeStep::Complete(b) => ReadOutcome::Frame(b@),
            DecodeStep::Closed => ReadOutcome::Closed,
        }
    }
}

impl FrameDecoder {
    /// A decoder is waiting for bytes: it never holds a whole frame.
    pub closed spec fn wf(&self) -> bool {
        match self.length {
            None => self.header@.len() < 4 && self.body@.len() == 0,
            Some(l) => self.header@.len() == 0 && self.body@.len() < l,
        }
    }

    /// A well-formed decoder has not yet received a whole frame.
    pub proof fn lemma_wf_waiting(&self)
        requires
            self.wf(),
        ensures
            !holds_frame(self@),
    {
        if let Some(l) = self.length {
            lemma_be_u32_round_trip(l as nat);
        }
    }

    /// A decoder for a new frame, with nothing received.
    pub fn new() -> (r: FrameDecoder)
        ensures
            r.wf(),
            r@ == Seq::<u8>::empty(),
    {
        FrameDecoder { header: Vec::new(), length: None, body: Vec::new() }
    }

    /// Hands the bytes of one read to the decoder.
    pub fn feed(self, chunk: &[u8]) -> (r: DecodeStep)
        requires
            self.wf(),
        ensures
            r.outcome() == after_read(self@, chunk@),
            r matches DecodeStep::Pending(d) ==> d.wf(),
    {
        if chunk.len() == 0 {
            return DecodeStep::Closed;
        }
        let ghost received = self@ + chunk@;
        let FrameDecoder { header, length, body } = self;
        let mut header = header;
        let mut body = body;
        let length = match length {
            Some(l) => {
                proof {
                    lemma_be_u32_round_trip(l as nat);
                }
                body.extend_from_slice(chunk);
                assert(received =~= be_u32_bytes(l as nat) + body@);
                l
            },
            None => {
                header.extend_from_slice(chunk);
                if header.len() < 4 {
                    assert(header@ =~= received);
                    return DecodeStep::Pending(FrameDecoder { header, length: None, body });
                }
                assert(header@ =~= received);
                let (l, rest) = parse_headers(header);
                proof {
                    lemma_be_u32_bytes_of_value(received);
                    lemma_be_u32_round_trip(l as nat);
                }
                header = Vec::new();
                body = rest;
                assert(received =~= be_u32_bytes(l as nat) + body@);
                l
            },
        };
        assert(be_u32_value(received) == length as nat);
        if body.len() >= length as usize {
            body.truncate(length as usize);
            assert(body@ =~= frame_body(received));
            DecodeStep::Complete(body)
        } else {
            DecodeStep::Pending(FrameDecoder { header, length: Some(length), body })
        }
    }
}

/// More bytes after a whole frame change neither that the frame is whole nor its body.
pub proof fn lemma_holds_frame_extends(received: Seq<u8>, more: Seq<u8>)
    requires
        holds_frame(received),
    ensures
        holds_frame(received + more),
        frame_body(received + more) == frame_body(received),
{
    let all = received + more;
    assert(all.take(4) =~= received.take(4));
    assert(be_u32_value(all) == be_u32_value(received));
    assert(frame_body(all) =~= frame_body(received));
}

/// A frame's header and body, or a part of them, is no whole frame until
/// its last byte; with that byte the frame is whole and has its body.
proof fn lemma_frame_prefix(body: Seq<u8>, received: Seq<u8>)
    requires
        body.len() <= MAX_BODY_LEN,
        received.len() >= frame_of(body).len(),
        received.take(frame_of(body).len() as int) == frame_of(body),
    ensures
        holds_frame(received),
        frame_body(received) == body,
        forall|k: int| 0 <= k < frame_of(body).len() ==> !holds_frame(#[trigger] received.take(k)),
{
    let frame = frame_of(body);
    lemma_be_u32_round_trip(body.len());
    assert(received.take(4) =~= frame.take(4));
    assert(frame.take(4) =~= be_u32_bytes(body.len()));
    assert(be_u32_value(received) == body.len());
    assert(frame_body(received) =~= body) by {
        assert forall|j: int| 0 <= j < body.len() implies frame_body(received)[j] == body[j] by {
            assert(received[4 + j] == received.take(frame.len() as int)[4 + j]);
        }
    }
    assert forall|k: int| 0 <= k < frame.len() implies !holds_frame(#[trigger] received.take(k)) by {
        if k >= 4 {
            assert(received.take(k).take(4) =~= received.take(4));
            assert(be_u32_value(received.take(k)) == body.len());
        }
    }
}

/// Reads whose bytes, after what was received, start with the frame of `body`
/// decode to `body`, provided none of them is empty.
proof fn lemma_reads_of_frame(body: Seq<u8>, received: Seq<u8>, reads: Seq<Seq<u8>>)
    requires
        body.len() <= MAX_BODY_LEN,
        received.len() < frame_of(body).len(),
        forall|i: int| 0 <= i < reads.len() ==> (#[trigger] reads[i]).len() > 0,
        (received + reads.flatten()).len() >= frame_of(body).len(),
        (received + reads.flatten()).take(frame_of(body).len() as int) == frame_of(body),
    ensures
        after_reads(received, reads) == ReadOutcome::Frame(body),
    decreases reads.len(),
{
    let frame = frame_of(body);
    let all = received + reads.flatten();
    if reads.len() == 0 {
        assert(all =~= received);
    } else {
        let next = received + reads[0];
        assert(all =~= next + reads.drop_first().flatten());
        assert(reads[0].len() > 0);
        if next.len() >= frame.len() {
            assert(next.take(frame.len() as int) =~= all.take(frame.len() as int));
            lemma_frame_prefix(body, next);
            assert(after_read(received, reads[0]) == ReadOutcome::Frame(body));
        } else {
            lemma_frame_prefix(body, all);
            assert(all.take(next.len() as int) =~= next);
            assert(!holds_frame(next));
            assert forall|i: int| 0 <= i < reads.drop_first().len() implies (
            #[trigger] reads.drop_first()[i]).len() > 0 by {
                assert(reads.drop_first()[i] == reads[i + 1]);
            }
            lemma_reads_of_frame(body, next, reads.drop_first());
        }
    }
}

/// Decoding the frame of a body, delivered in one read, gives that body back.
pub proof fn lemma_round_trip(body: Seq<u8>)
    requires
        body.len() <= MAX_BODY_LEN,
    ensures
        after_reads(Seq::empty(), seq![frame_of(body)]) == ReadOutcome::Frame(body),
{
    let reads = seq![frame_of(body)];
    reveal_with_fuel(Seq::flatten, 2);
    assert(Seq::<u8>::empty() + reads.flatten() =~= frame_of(body));
    assert(frame_of(body).take(frame_of(body).len() as int) =~= frame_of(body));
    lemma_reads_of_frame(body, Seq::empty(), reads);
}

/// However a frame's bytes are split into non-empty reads, decoding them gives
/// what decoding the frame in a single read gives: its body.
pub proof fn lemma_fragmentation_independence(body: Seq<u8>, reads: Seq<Seq<u8>>)
    requires
        body.len() <= MAX_BODY_LEN,
        forall|i: int| 0 <= i < reads.len() ==> (#[trigger] reads[i]).len() > 0,
        reads.flatten() == frame_of(body),
    ensures
        after_reads(Seq::empty(), reads) == after_reads(Seq::empty(), seq![frame_of(body)]),
        after_reads(Seq::empty(), reads) == ReadOutcome::Frame(body),
{
    assert(Seq::<u8>::empty() + reads.flatten() =~= frame_of(body));
    assert(frame_of(body).take(frame_of(body).len() as int) =~= frame_of(body));
    lemma_reads_of_frame(body, Seq::empty(), reads);
    lemma_round_trip(body);
}

/// A read that carries a whole frame and then more bytes (the start of the
/// next frame) decodes to exactly that frame's body; the extra bytes are
/// not part of it.
pub proof fn lemma_coalesced_read_truncates(body: Seq<u8>, next: Seq<u8>)
    requires
        body.len() <= MAX_BODY_LEN,
    ensures
        after_reads(Seq::empty(), seq![frame_of(body) + next]) == ReadOutcome::Frame(body),
{
    let reads = seq![frame_of(body) + next];
    reveal_with_fuel(Seq::flatten, 2);
    assert(Seq::<u8>::empty() + reads.flatten() =~= frame_of(body) + next);
    assert((frame_of(body) + next).take(frame_of(body).len() as int) =~= frame_of(body));
    lemma_reads_of_frame(body, Seq::empty(), reads);
}

/// A read that returns no bytes before the frame is whole fails the decode:
/// it never yields a short body.
pub proof fn lemma_empty_read_fails(received: Seq<u8>, reads: Seq<Seq<u8>>, i: int)
    requires
        0 <= i < reads.len(),
        reads[i].len() == 0,
        !holds_frame(received + reads.take(i).flatten()),
    ensures
        after_reads(received, reads) == ReadOutcome::Closed,
    decreases i,
{
    if i > 0 && reads[0].len() > 0 {
        let next = received + reads[0];
        let rest = reads.drop_first();
        assert(reads.take(i).first() == reads[0]);
        assert(reads.take(i).drop_first() =~= rest.take(i - 1));
        assert(received + reads.take(i).flatten() =~= next + rest.take(i - 1).flatten());
        if holds_frame(next) {
            lemma_holds_frame_extends(next, rest.take(i - 1).flatten());
        }
        assert(rest[i - 1] == reads[i]);
        lemma_empty_read_fails(next, rest, i - 1);
    }
}

} // verus!
