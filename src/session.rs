//! The client's exchange with its peer, as a state machine over frames.
//!
//! The session decides; whoever owns the transport acts. In a sending phase
//! `outbound` gives the frame to write, in an awaiting phase `inbound` takes
//! the body of the frame that was read. The phases come in one fixed order:
//! connect and be accepted, send the request and take the response, say bye
//! and be answered with bye.

use vstd::prelude::*;
use vstd::string::*;
use vstd::utf8::encode_utf8;

use crate::frame::{add_headers, frame_of, MAX_BODY_LEN};
use crate::text::{generate_request_from_url, REQUEST_PREFIX};

verus! {

/// What the client sends to open the exchange.
pub const CONNECT_MESSAGE: &'static str = "Connect";

/// What the peer answers when it accepts the client.
pub const ACCEPT_RESPONSE: &'static str = "Accept";

/// What the client sends to end the exchange.
pub const BYE_MESSAGE: &'static str = "BYE";

/// What the peer answers to the client's bye.
pub const BYE_RESPONSE: &'static str = "BYE";

/// Where a session stands.
#[derive(Clone, Copy, Debug, PartialEq, Eq, Structural)]
pub enum Phase {
    Connecting,
    AwaitingAccept,
    SendingRequest,
    AwaitingResponse,
    SendingBye,
    AwaitingByeAck,
    /// The exchange ended as it should.
    Closed,
    /// The peer broke the protocol; nothing more is sent or read.
    Aborted,
}

/// Why a session could not start or go on.
#[derive(Debug)]
pub enum SessionError {
    /// The request for the target would not fit in one frame.
    RequestTooLarge,
    /// In `phase`, the peer sent `received` where another token was due.
    UnexpectedReply { phase: Phase, received: Vec<u8> },
}

/// The bytes of the request message for the target `url`.
pub open spec fn request_bytes(url: Seq<char>) -> Seq<u8> {
    encode_utf8(REQUEST_PREFIX@ + url)
}

/// Whether the session has a frame to send in `phase`.
pub open spec fn is_sending(phase: Phase) -> bool {
    phase == Phase::Connecting || phase == Phase::SendingRequest || phase == Phase::SendingBye
}

/// Whether the session waits for a frame from the peer in `phase`.
pub open spec fn is_awaiting(phase: Phase) -> bool {
    phase == Phase::AwaitingAccept || phase == Phase::AwaitingResponse || phase
        == Phase::AwaitingByeAck
}

/// The phase that follows `phase` when all goes as the protocol says.
pub open spec fn next_phase(phase: Phase) -> Phase {
    match phase {
        Phase::Connecting => Phase::AwaitingAccept,
        Phase::AwaitingAccept => Phase::SendingRequest,
        Phase::SendingRequest => Phase::AwaitingResponse,
        Phase::AwaitingResponse => Phase::SendingBye,
        Phase::SendingBye => Phase::AwaitingByeAck,
        Phase::AwaitingByeAck => Phase::Closed,
        Phase::Closed => Phase::Closed,
        Phase::Aborted => Phase::Aborted,
    }
}

/// The body the client sends in a sending phase.
pub open spec fn outbound_message(phase: Phase, request: Seq<u8>) -> Seq<u8> {
    match phase {
        Phase::Connecting => CONNECT_MESSAGE.spec_bytes(),
        Phase::SendingRequest => request,
        _ => BYE_MESSAGE.spec_bytes(),
    }
}

/// The body the peer must send in an awaiting phase where a token is due.
pub open spec fn expected_reply(phase: Phase) -> Seq<u8> {
    if phase == Phase::AwaitingAccept {
        ACCEPT_RESPONSE.spec_bytes()
    } else {
        BYE_RESPONSE.spec_bytes()
    }
}

/// An ASCII string has one byte per character.
proof fn lemma_ascii_bytes(s: &str)
    requires
        is_ascii(s),
    ensures
        s.spec_bytes().len() == s@.len(),
{
    is_ascii_spec_bytes(s);
}

/// Whether two byte strings are equal.
fn same_bytes(a: &[u8], b: &[u8]) -> (r: bool)
    ensures
        r == (a@ == b@),
{
    if a.len() != b.len() {
        return false;
    }
    let mut i: usize = 0;
    while i < a.len()
        invariant
            a@.len() == b@.len(),
            i <= a@.len(),
            forall|j: int| 0 <= j < i ==> a@[j] == b@[j],
        decreases a@.len() - i,
    {
        if a[i] != b[i] {
            return false;
        }
        i = i + 1;
    }
    assert(a@ =~= b@);
    true
}

/// One exchange with the peer.
pub struct Session {
    phase: Phase,
    request: Vec<u8>,
}

impl Session {
    /// The phase the session is in.
    pub closed spec fn spec_phase(&self) -> Phase {
        self.phase
    }

    /// The request message the session sends.
    pub closed spec fn spec_request(&self) -> Seq<u8> {
        self.request@
    }

    /// The request fits in a frame.
    pub closed spec fn wf(&self) -> bool {
        self.request@.len() <= MAX_BODY_LEN
    }

    /// A session that will ask the peer for `url`, or `RequestTooLarge` when
    /// that request would not fit in one frame.
    pub fn new(url: &str) -> (r: Result<Session, SessionError>)
        ensures
            r is Ok <==> request_bytes(url@).len() <= MAX_BODY_LEN,
            r matches Ok(s) ==> s.wf() && s.spec_phase() == Phase::Connecting && s.spec_request()
                == request_bytes(url@),
            r matches Err(e) ==> e is RequestTooLarge,
    {
        let request = generate_request_from_url(url);
        let bytes = request.as_str().as_bytes();
        if bytes.len() > MAX_BODY_LEN {
            return Err(SessionError::RequestTooLarge);
        }
        Ok(Session { phase: Phase::Connecting, request: vstd::slice::slice_to_vec(bytes) })
    }

    /// The phase the session is in.
    pub fn phase(&self) -> (r: Phase)
        ensures
            r == self.spec_phase(),
    {
        self.phase
    }

    /// The frame to send in a sending phase; the session moves on to wait
    /// for the answer.
    pub fn outbound(&mut self) -> (frame: Vec<u8>)
        requires
            old(self).wf(),
            is_sending(old(self).spec_phase()),
        ensures
            final(self).wf(),
            final(self).spec_request() == old(self).spec_request(),
            final(self).spec_phase() == next_phase(old(self).spec_phase()),
            frame@ == frame_of(outbound_message(old(self).spec_phase(), old(self).spec_request())),
    {
        let frame = match self.phase {
            Phase::Connecting => {
                proof {
                    reveal_strlit("Connect");
                    lemma_ascii_bytes(CONNECT_MESSAGE);
                }
                add_headers(CONNECT_MESSAGE.as_bytes())
            },
            Phase::SendingRequest => add_headers(self.request.as_slice()),
            _ => {
                proof {
                    reveal_strlit("BYE");
                    lemma_ascii_bytes(BYE_MESSAGE);
                }
                add_headers(BYE_MESSAGE.as_bytes())
            },
        };
        self.phase = match self.phase {
            Phase::Connecting => Phase::AwaitingAccept,
            Phase::SendingRequest => Phase::AwaitingResponse,
            _ => Phase::AwaitingByeAck,
        };
        frame
    }

    /// Takes the body of the frame the peer sent in an awaiting phase.
    ///
    /// The response to the request is handed back as it came. A token that is
    /// not the one due aborts the session.
    pub fn inbound(&mut self, body: Vec<u8>) -> (r: Result<Option<Vec<u8>>, SessionError>)
        requires
            old(self).wf(),
            is_awaiting(old(self).spec_phase()),
        ensures
            final(self).wf(),
            final(self).spec_request() == old(self).spec_request(),
            old(self).spec_phase() == Phase::AwaitingResponse ==> (r matches Ok(Some(p)) && p@
                == body@ && final(self).spec_phase() == Phase::SendingBye),
            old(self).spec_phase() != Phase::AwaitingResponse ==> {
                if body@ == expected_reply(old(self).spec_phase()) {
                    r matches Ok(None) && final(self).spec_phase() == next_phase(
                        old(self).spec_phase(),
                    )
                } else {
                    r matches Err(SessionError::UnexpectedReply { phase, received }) && phase
                        == old(self).spec_phase() && received@ == body@ && final(self).spec_phase()
                        == Phase::Aborted
                }
            },
    {
        let phase = self.phase;
        if phase == Phase::AwaitingResponse {
            self.phase = Phase::SendingBye;
            return Ok(Some(body));
        }
        let expected = if phase == Phase::AwaitingAccept {
            ACCEPT_RESPONSE.as_bytes()
        } else {
            BYE_RESPONSE.as_bytes()
        };
        if same_bytes(body.as_slice(), expected) {
            self.phase = if phase == Phase::AwaitingAccept {
                Phase::SendingRequest
            } else {
                Phase::Closed
            };
            Ok(None)
        } else {
            self.phase = Phase::Aborted;
            Err(SessionError::UnexpectedReply { phase, received: body })
        }
    }
}

} // verus!
