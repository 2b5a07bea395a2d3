use proxy_client::decoder::{DecodeStep, FrameDecoder};
use proxy_client::frame::add_headers;
use proxy_client::session::{Phase, Session, SessionError};
use proxy_client::text::{generate_request_from_url, response_to_string};

/// Decodes one frame from `bytes`, delivered in reads of at most `size` bytes.
fn receive(bytes: &[u8], size: usize) -> Vec<u8> {
    let mut decoder = FrameDecoder::new();
    for read in bytes.chunks(size) {
        match decoder.feed(read) {
            DecodeStep::Pending(next) => decoder = next,
            DecodeStep::Complete(body) => return body,
            DecodeStep::Closed => panic!("closed"),
        }
    }
    panic!("the frame was not whole");
}

#[test]
fn request_is_prefix_and_url() {
    assert_eq!(generate_request_from_url("http://example.com/a"), "GET:http://example.com/a");
    assert_eq!(generate_request_from_url(""), "GET:");
}

#[test]
fn response_text_is_lossy() {
    assert_eq!(response_to_string(b"Accept".to_vec()), "Accept");
    assert_eq!(response_to_string(vec![b'B', 0xff, b'E']), "B\u{fffd}E");
    assert_eq!(response_to_string("h\u{e9}".as_bytes().to_vec()), "h\u{e9}");
}

#[test]
fn full_exchange_delivers_payload() {
    let url = "http://example.com/index.html";
    let payload: Vec<u8> = vec![0, 159, 146, 150, 255, 0, 13, 10];
    let mut session = Session::new(url).unwrap();
    assert_eq!(session.phase(), Phase::Connecting);
    assert_eq!(session.outbound(), add_headers(b"Connect"));
    assert_eq!(session.phase(), Phase::AwaitingAccept);

    let accept = receive(&add_headers(b"Accept"), 3);
    assert!(matches!(session.inbound(accept), Ok(None)));
    assert_eq!(session.phase(), Phase::SendingRequest);
    let request = session.outbound();
    assert_eq!(request, add_headers(format!("GET:{}", url).as_bytes()));
    assert_eq!(session.phase(), Phase::AwaitingResponse);

    let response = receive(&add_headers(&payload), 5);
    match session.inbound(response) {
        Ok(Some(delivered)) => assert_eq!(delivered, payload),
        _ => panic!("the payload is handed back"),
    }
    assert_eq!(session.phase(), Phase::SendingBye);
    assert_eq!(session.outbound(), add_headers(b"BYE"));
    assert_eq!(session.phase(), Phase::AwaitingByeAck);

    let bye = receive(&add_headers(b"BYE"), 1);
    assert!(matches!(session.inbound(bye), Ok(None)));
    assert_eq!(session.phase(), Phase::Closed);
}

#[test]
fn empty_payload_is_delivered() {
    let mut session = Session::new("u").unwrap();
    session.outbound();
    session.inbound(b"Accept".to_vec()).unwrap();
    session.outbound();
    match session.inbound(Vec::new()) {
        Ok(Some(delivered)) => assert!(delivered.is_empty()),
        _ => panic!("an empty payload is accepted"),
    }
}

#[test]
fn rejected_handshake_aborts_before_request() {
    let mut session = Session::new("http://example.com").unwrap();
    session.outbound();
    let reply = receive(&add_headers(b"Reject"), 4);
    match session.inbound(reply) {
        Err(SessionError::UnexpectedReply { phase, received }) => {
            assert_eq!(phase, Phase::AwaitingAccept);
            assert_eq!(received, b"Reject".to_vec());
        }
        _ => panic!("the handshake fails"),
    }
    assert_eq!(session.phase(), Phase::Aborted);
}

#[test]
fn wrong_bye_answer_aborts() {
    let mut session = Session::new("x").unwrap();
    session.outbound();
    session.inbound(b"Accept".to_vec()).unwrap();
    session.outbound();
    session.inbound(b"data".to_vec()).unwrap();
    session.outbound();
    match session.inbound(b"bye".to_vec()) {
        Err(SessionError::UnexpectedReply { phase, received }) => {
            assert_eq!(phase, Phase::AwaitingByeAck);
            assert_eq!(received, b"bye".to_vec());
        }
        _ => panic!("the answer must be BYE exactly"),
    }
    assert_eq!(session.phase(), Phase::Aborted);
}

#[test]
fn accept_token_must_match_exactly() {
    for reply in [&b"Accep"[..], &b"Accept "[..], &b"accept"[..], &[][..]] {
        let mut session = Session::new("x").unwrap();
        session.outbound();
        assert!(session.inbound(reply.to_vec()).is_err());
        assert_eq!(session.phase(), Phase::Aborted);
    }
}
