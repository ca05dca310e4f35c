use eab::network::NetAddr;
use sha2::{Digest, Sha256};
use eab::quic::{
    answer_secure_frame, certificate_fingerprint, certificate_matches_pin, check_spike_request, secure_message_request, secure_message_response,
    spike_acknowledgement, PinnedQuicClient, QuicClientError, SecureRequestHandler,
    MAX_SPIKE_REQUEST_LEN,
};
use eab::secure::{
    ClaimStatusRequest, ProtocolErrorCode, ProtocolErrorResponse, SecureMessage,
};

fn target() -> NetAddr {
    NetAddr::V4 { ip: u32::from_be_bytes([127, 0, 0, 1]), port: 9 }
}

fn status_request(id: u8) -> SecureMessage {
    SecureMessage::ClaimStatusRequest(ClaimStatusRequest {
        request_id: [id; 16],
        session_token: "session".into(),
        claim_id: "claim-1".into(),
    })
}

#[test]
fn spike_rejects_oversized_payload_before_network_io() {
    let request = vec![0_u8; MAX_SPIKE_REQUEST_LEN + 1];
    let result = check_spike_request(&[1_u8; 32], &request);
    assert!(result.is_err());
}

#[test]
fn spike_rejects_empty_trust_before_network_io() {
    let result = check_spike_request(&[0_u8; 32], b"probe");
    assert!(result.is_err());
}

#[test]
fn spike_checks_name_the_refusal() {
    assert_eq!(
        check_spike_request(&[0_u8; 32], b"probe").unwrap_err(),
        "QUIC authority certificate pin must be non-zero"
    );
    assert_eq!(
        check_spike_request(&[1_u8; 32], &vec![0_u8; MAX_SPIKE_REQUEST_LEN + 1]).unwrap_err(),
        "QUIC spike request exceeds 4096 bytes"
    );
    assert!(check_spike_request(&[1_u8; 32], &vec![0_u8; MAX_SPIKE_REQUEST_LEN]).is_ok());
}

#[test]
fn spike_acknowledgement_prefixes_the_request() {
    assert_eq!(spike_acknowledgement(b"probe"), [b"EAB-QUIC-SPIKE-ACK\0".as_slice(), b"probe"].concat());
}

#[test]
fn pinned_client_refuses_an_empty_pin() {
    assert!(matches!(PinnedQuicClient::new(target(), [0; 32]), Err(QuicClientError::EmptyTrust)));
    let client = PinnedQuicClient::new(target(), [7; 32]).expect("pinned client");
    assert_eq!(client.target(), target());
    assert_eq!(client.authority_certificate_fingerprint(), [7; 32]);
    assert_eq!(
        QuicClientError::EmptyTrust.message(),
        "authority certificate pin must be non-zero"
    );
}

#[test]
fn pinned_client_accepts_only_the_correlated_answer() {
    let client = PinnedQuicClient::new(target(), [7; 32]).expect("pinned client");
    let (request_id, frame) = client.prepare_round_trip(&status_request(3)).expect("frame");
    assert_eq!(request_id, [3; 16]);
    assert_eq!(SecureMessage::decode(&frame).unwrap(), status_request(3));

    let answer = PinnedQuicClient::finish_round_trip(request_id, &frame).expect("correlated");
    assert_eq!(answer, status_request(3));
    let other = status_request(4).encode().unwrap();
    assert!(matches!(
        PinnedQuicClient::finish_round_trip(request_id, &other),
        Err(QuicClientError::Correlation)
    ));
    assert!(matches!(
        PinnedQuicClient::finish_round_trip(request_id, b"junk"),
        Err(QuicClientError::Wire(_))
    ));
}

#[test]
fn invalid_request_is_refused_before_sending() {
    let client = PinnedQuicClient::new(target(), [7; 32]).expect("pinned client");
    assert!(matches!(client.prepare_round_trip(&status_request(0)), Err(QuicClientError::Wire(_))));
    assert_eq!(
        secure_message_request(&[7; 32], &status_request(0)).unwrap_err(),
        "invalid EAB secure request message"
    );
    assert_eq!(
        secure_message_request(&[0; 32], &status_request(1)).unwrap_err(),
        "QUIC authority certificate pin must be non-zero"
    );
}

#[test]
fn secure_response_must_decode_and_correlate() {
    let (id, frame) = secure_message_request(&[7; 32], &status_request(5)).expect("request");
    assert_eq!(secure_message_response(id, &frame).unwrap(), status_request(5));
    assert_eq!(
        secure_message_response([6; 16], &frame).unwrap_err(),
        "EAB secure response request_id mismatch"
    );
    assert_eq!(
        secure_message_response(id, &frame[..frame.len() - 1]).unwrap_err(),
        "invalid EAB secure response frame"
    );
}

struct Refuser;

impl SecureRequestHandler for Refuser {
    fn handle(&self, request: SecureMessage) -> SecureMessage {
        SecureMessage::ProtocolErrorResponse(ProtocolErrorResponse {
            request_id: request.request_id(),
            code: ProtocolErrorCode::AuthenticationFailed,
            retryable: false,
            detail: "authentication failed".into(),
        })
    }
}

#[test]
fn authority_answers_decoded_frames_only() {
    let frame = status_request(9).encode().unwrap();
    let answer = answer_secure_frame(&Refuser, &frame).expect("answer");
    match SecureMessage::decode(&answer).unwrap() {
        SecureMessage::ProtocolErrorResponse(response) => {
            assert_eq!(response.request_id, [9; 16]);
            assert_eq!(response.code, ProtocolErrorCode::AuthenticationFailed);
        }
        _ => panic!("expected a protocol error"),
    }
    assert_eq!(
        answer_secure_frame(&Refuser, b"junk").unwrap_err(),
        "invalid EAB secure request frame"
    );
}

#[test]
fn certificate_pin_is_the_sha256_of_the_der_bytes() {
    let der = b"certificate bytes";
    let expected: [u8; 32] = Sha256::digest(der).into();
    assert_eq!(certificate_fingerprint(der), expected);
    assert!(certificate_matches_pin(der, &expected));
    assert!(!certificate_matches_pin(b"other certificate", &expected));
}
