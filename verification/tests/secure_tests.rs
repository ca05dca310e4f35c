use eab::claim::{
    EabAwardReference, EabClaimAcknowledgement, EabClaimDecisionCode, EabClaimDisposition,
    EabClaimEnvelope,
};
use eab::offline::{OfflineAchievementRecord, OfflineClaimReadiness};
use eab::secure::{
    ClaimStatusRequest, ClaimStatusResponse, ProtocolErrorCode, ProtocolErrorResponse,
    SecureMessage, SubmitClaimRequest, SubmitClaimResponse, MAX_EVIDENCE_LEN,
    MAX_SECURE_FRAME_LEN, SECURE_HEADER_LEN,
};
use eab::wire::WireError;
use eab::secure_claims::{claim_step_after_session, secure_claim_step, SessionedClaimAction};

fn envelope() -> EabClaimEnvelope {
    EabClaimEnvelope {
        schema_version: 1,
        record: OfflineAchievementRecord {
            schema_version: 1,
            local_award_id: "local-award".into(),
            claim_id: "claim-1".into(),
            developer: "developer".into(),
            game: "game".into(),
            achievement_id: "first-win".into(),
            version: 1,
            definition_digest: "11".repeat(32),
            local_player_id: "local-player".into(),
            save_id: "save".into(),
            installation_id: "install".into(),
            session_id: "offline-session".into(),
            client_sequence: 7,
            earned_at_local: "2026-08-06T01:02:03Z".into(),
            recorded_at_local: "2026-08-06T01:02:04Z".into(),
            game_build: "1.0.0".into(),
            event_key: "match.won".into(),
            event_value: 1,
            evidence: Some("evidence\nbody".into()),
            claim_readiness: OfflineClaimReadiness::Ready,
            local_record_hash: "22".repeat(32),
        },
    }
}

fn acknowledgement() -> EabClaimAcknowledgement {
    EabClaimAcknowledgement {
        schema_version: 1,
        claim_id: "claim-1".into(),
        developer: "developer".into(),
        game: "game".into(),
        achievement_id: "first-win".into(),
        version: 1,
        disposition: EabClaimDisposition::Acknowledged,
        code: EabClaimDecisionCode::Acknowledged,
        first_observed_at: "2026-08-06T01:03:00Z".into(),
        decided_at: Some("2026-08-06T01:03:01Z".into()),
        award: Some(EabAwardReference {
            transaction_id: "transaction-1".into(),
            block_hash: "33".repeat(32),
        }),
    }
}

fn round_trip(message: SecureMessage) {
    let first = message.encode().unwrap();
    assert!(first.len() <= MAX_SECURE_FRAME_LEN);
    let decoded = SecureMessage::decode(&first).unwrap();
    assert_eq!(decoded, message);
    assert_eq!(decoded.encode().unwrap(), first);
}

#[test]
fn canonical_claim_messages_round_trip_deterministically() {
    round_trip(SecureMessage::SubmitClaimRequest(SubmitClaimRequest {
        request_id: [1; 16],
        session_token: "secret-session".into(),
        envelope: envelope(),
    }));
    round_trip(SecureMessage::SubmitClaimResponse(SubmitClaimResponse {
        request_id: [1; 16],
        acknowledgement: acknowledgement(),
    }));
    round_trip(SecureMessage::ClaimStatusRequest(ClaimStatusRequest {
        request_id: [2; 16],
        session_token: "secret-session".into(),
        claim_id: "claim-1".into(),
    }));
    round_trip(SecureMessage::ClaimStatusResponse(ClaimStatusResponse {
        request_id: [2; 16],
        claim_id: "claim-1".into(),
        acknowledgement: Some(acknowledgement()),
    }));
    round_trip(SecureMessage::ClaimStatusResponse(ClaimStatusResponse {
        request_id: [2; 16],
        claim_id: "unknown-claim".into(),
        acknowledgement: None,
    }));
}

#[test]
fn secure_decoder_rejects_outer_bounds_and_trailing_data() {
    assert!(matches!(
        SecureMessage::decode(&vec![0; MAX_SECURE_FRAME_LEN + 1]),
        Err(WireError::FrameTooLarge { .. })
    ));

    let mut encoded = SecureMessage::ClaimStatusRequest(ClaimStatusRequest {
        request_id: [2; 16],
        session_token: "secret-session".into(),
        claim_id: "claim-1".into(),
    })
    .encode()
    .unwrap();
    encoded.push(0);
    let payload_len = (encoded.len() - SECURE_HEADER_LEN) as u32;
    encoded[8..12].copy_from_slice(&payload_len.to_be_bytes());
    assert!(matches!(
        SecureMessage::decode(&encoded),
        Err(WireError::TrailingPayloadBytes(1))
    ));
}

#[test]
fn claim_status_request_has_a_stable_golden_vector() {
    let message = SecureMessage::ClaimStatusRequest(ClaimStatusRequest {
        request_id: [1; 16],
        session_token: "s".into(),
        claim_id: "c".into(),
    });
    let expected = vec![
        0x45, 0x41, 0x42, 0x53, // EABS
        0x00, 0x02, // wire version 2
        0x00, 0x03, // ClaimStatusRequest
        0x00, 0x00, 0x00, 0x16, // 22-byte payload
        0x83, 0x50, 0x01, 0x01, 0x01, 0x01, 0x01, 0x01, 0x01, 0x01, 0x01, 0x01, 0x01, 0x01,
        0x01, 0x01, 0x01, 0x01, 0x61, 0x73, 0x61, 0x63,
    ];
    assert_eq!(message.encode().unwrap(), expected);
    assert_eq!(SecureMessage::decode(&expected), Ok(message));
}

#[test]
fn secure_messages_reject_empty_auth_and_oversized_evidence() {
    let mut request = SubmitClaimRequest {
        request_id: [1; 16],
        session_token: String::new(),
        envelope: envelope(),
    };
    assert_eq!(
        SecureMessage::SubmitClaimRequest(request.clone()).encode(),
        Err(WireError::InvalidField("session_token"))
    );
    request.session_token = "session".into();
    request.envelope.record.evidence = Some("x".repeat(MAX_EVIDENCE_LEN + 1));
    assert_eq!(
        SecureMessage::SubmitClaimRequest(request).encode(),
        Err(WireError::InvalidField("evidence"))
    );
}

#[test]
fn protocol_error_round_trips_and_rejects_unknown_codes() {
    let message = SecureMessage::ProtocolErrorResponse(ProtocolErrorResponse {
        request_id: [3; 16],
        code: ProtocolErrorCode::AuthenticationFailed,
        retryable: true,
        detail: "session expired".into(),
    });
    round_trip(message.clone());
    let mut encoded = message.encode().unwrap();
    // The code follows the array head (1 byte) and the request id (17 bytes).
    let code_at = SECURE_HEADER_LEN + 1 + 17;
    assert_eq!(encoded[code_at], 0x02);
    encoded[code_at] = 0x09;
    assert_eq!(
        SecureMessage::decode(&encoded),
        Err(WireError::InvalidField("protocol error code"))
    );
}

#[test]
fn status_response_claim_id_must_match_its_acknowledgement() {
    let message = SecureMessage::ClaimStatusResponse(ClaimStatusResponse {
        request_id: [2; 16],
        claim_id: "claim-2".into(),
        acknowledgement: Some(acknowledgement()),
    });
    assert_eq!(
        message.encode(),
        Err(WireError::InvalidField("status claim_id mismatch"))
    );
}

#[test]
fn secure_decoder_rejects_unknown_kind_and_version() {
    let mut encoded = SecureMessage::ClaimStatusRequest(ClaimStatusRequest {
        request_id: [1; 16],
        session_token: "s".into(),
        claim_id: "c".into(),
    })
    .encode()
    .unwrap();
    encoded[7] = 9;
    assert_eq!(SecureMessage::decode(&encoded), Err(WireError::UnknownMessageKind(9)));
    encoded[7] = 3;
    encoded[5] = 1;
    assert_eq!(SecureMessage::decode(&encoded), Err(WireError::UnsupportedWireVersion(1)));
    encoded[5] = 2;
    encoded[11] = 0x20;
    assert_eq!(
        SecureMessage::decode(&encoded),
        Err(WireError::LengthMismatch { declared: 0x20, actual: 0x16 })
    );
    assert_eq!(
        SecureMessage::decode(&encoded[..5]),
        Err(WireError::TruncatedHeader { actual: 5, required: 12 })
    );
}

#[test]
fn a_session_that_names_no_player_is_refused_and_the_player_comes_from_the_session() {
    let request = SecureMessage::SubmitClaimRequest(SubmitClaimRequest {
        request_id: [3; 16],
        session_token: "unknown".into(),
        envelope: envelope(),
    });
    match claim_step_after_session(secure_claim_step(request.clone()), None) {
        SessionedClaimAction::Reply(SecureMessage::ProtocolErrorResponse(e)) => {
            assert_eq!(e.request_id, [3; 16]);
            assert_eq!(e.code, ProtocolErrorCode::AuthenticationFailed);
            assert!(!e.retryable);
            assert_eq!(e.detail, "authentication failed");
        }
        _ => panic!("expected an authentication failure"),
    }
    match claim_step_after_session(secure_claim_step(request), Some("player-7".into())) {
        SessionedClaimAction::Submit { request_id, player_id, envelope: e } => {
            assert_eq!(request_id, [3; 16]);
            assert_eq!(player_id, "player-7");
            assert_eq!(e, envelope());
        }
        _ => panic!("expected a submission"),
    }
    let status = SecureMessage::ClaimStatusRequest(ClaimStatusRequest {
        request_id: [4; 16],
        session_token: "s".into(),
        claim_id: "claim-1".into(),
    });
    match claim_step_after_session(secure_claim_step(status), Some("p".into())) {
        SessionedClaimAction::Status { request_id, player_id, claim_id } => {
            assert_eq!(request_id, [4; 16]);
            assert_eq!(player_id, "p");
            assert_eq!(claim_id, "claim-1");
        }
        _ => panic!("expected a status lookup"),
    }
}
