use eab::wire::{
    DiscoveryChallenge, DiscoveryMessage, DiscoveryMessageKind, DiscoveryProbe, DiscoveryQuery,
    DiscoveryResponse, WireError, AUTHORITY_FINGERPRINT_LEN, CAPABILITY_ACHIEVEMENT_CLAIM,
    CAPABILITY_NODE_STATUS, DISCOVERY_HEADER_LEN, DISCOVERY_TOKEN_LEN, MAX_DISCOVERY_DATAGRAM_LEN,
    MAX_NODE_ID_LEN,
};

fn request_id() -> [u8; 16] {
    [
        0x00, 0x01, 0x02, 0x03, 0x04, 0x05, 0x06, 0x07, 0x08, 0x09, 0x0a, 0x0b, 0x0c, 0x0d, 0x0e,
        0x0f,
    ]
}

fn client_nonce() -> [u8; DISCOVERY_TOKEN_LEN] {
    [0x55; DISCOVERY_TOKEN_LEN]
}

fn cookie() -> [u8; DISCOVERY_TOKEN_LEN] {
    [0xcc; DISCOVERY_TOKEN_LEN]
}

fn response() -> DiscoveryResponse {
    DiscoveryResponse {
        request_id: request_id(),
        node_id: "authority-1".to_owned(),
        quic_endpoint: "[fe80::1%3]:4542".to_owned(),
        authority_fingerprint: [0xa5; AUTHORITY_FINGERPRINT_LEN],
        min_wire_version: 2,
        max_wire_version: 2,
        capabilities: vec![CAPABILITY_ACHIEVEMENT_CLAIM, CAPABILITY_NODE_STATUS],
        expires_at_unix_seconds: 1_800_000_000,
    }
}

fn assert_golden(message: DiscoveryMessage, expected: &[u8]) {
    let encoded = message.encode().expect("golden message should encode");
    assert_eq!(encoded, expected);
    assert_eq!(DiscoveryMessage::decode(expected), Ok(message));
}

#[test]
fn probe_has_a_stable_golden_vector() {
    let message = DiscoveryMessage::Probe(DiscoveryProbe {
        request_id: request_id(),
        client_nonce: client_nonce(),
        min_wire_version: 2,
        max_wire_version: 2,
    });

    let encoded = message.encode().expect("probe should encode");
    let expected = vec![
        0x45, 0x41, 0x42, 0x32, // EAB2
        0x00, 0x02, // wire version 2
        0x00, 0x01, // probe
        0x00, 0x25, // 37-byte payload
        0x84, 0x50, 0x00, 0x01, 0x02, 0x03, 0x04, 0x05, 0x06, 0x07, 0x08, 0x09, 0x0a, 0x0b, 0x0c,
        0x0d, 0x0e, 0x0f, 0x50, 0x55, 0x55, 0x55, 0x55, 0x55, 0x55, 0x55, 0x55, 0x55, 0x55, 0x55,
        0x55, 0x55, 0x55, 0x55, 0x55, 0x02, 0x02,
    ];
    assert_eq!(encoded, expected);
    assert_eq!(DiscoveryMessage::decode(&encoded), Ok(message));
}

#[test]
fn challenge_is_no_larger_than_probe_and_query_echoes_the_cookie() {
    let probe = DiscoveryMessage::Probe(DiscoveryProbe {
        request_id: request_id(),
        client_nonce: client_nonce(),
        min_wire_version: 2,
        max_wire_version: 2,
    });
    let challenge = DiscoveryMessage::Challenge(DiscoveryChallenge {
        request_id: request_id(),
        cookie: cookie(),
    });
    let query = DiscoveryMessage::Query(DiscoveryQuery {
        request_id: request_id(),
        client_nonce: client_nonce(),
        cookie: cookie(),
    });

    let probe_bytes = probe.encode().expect("probe should encode");
    let challenge_bytes = challenge.encode().expect("challenge should encode");
    assert!(challenge_bytes.len() <= probe_bytes.len());
    assert_eq!(DiscoveryMessage::decode(&challenge_bytes), Ok(challenge));
    assert_eq!(
        DiscoveryMessage::decode(&query.encode().expect("query should encode")),
        Ok(query)
    );
}

#[test]
fn challenge_query_and_response_have_stable_golden_vectors() {
    let challenge = DiscoveryMessage::Challenge(DiscoveryChallenge {
        request_id: request_id(),
        cookie: cookie(),
    });
    assert_golden(
        challenge,
        &[
            0x45, 0x41, 0x42, 0x32, 0x00, 0x02, 0x00, 0x02, 0x00, 0x23, 0x82, 0x50, 0x00, 0x01,
            0x02, 0x03, 0x04, 0x05, 0x06, 0x07, 0x08, 0x09, 0x0a, 0x0b, 0x0c, 0x0d, 0x0e, 0x0f,
            0x50, 0xcc, 0xcc, 0xcc, 0xcc, 0xcc, 0xcc, 0xcc, 0xcc, 0xcc, 0xcc, 0xcc, 0xcc, 0xcc,
            0xcc, 0xcc, 0xcc,
        ],
    );

    let query = DiscoveryMessage::Query(DiscoveryQuery {
        request_id: request_id(),
        client_nonce: client_nonce(),
        cookie: cookie(),
    });
    assert_golden(
        query,
        &[
            0x45, 0x41, 0x42, 0x32, 0x00, 0x02, 0x00, 0x03, 0x00, 0x34, 0x83, 0x50, 0x00, 0x01,
            0x02, 0x03, 0x04, 0x05, 0x06, 0x07, 0x08, 0x09, 0x0a, 0x0b, 0x0c, 0x0d, 0x0e, 0x0f,
            0x50, 0x55, 0x55, 0x55, 0x55, 0x55, 0x55, 0x55, 0x55, 0x55, 0x55, 0x55, 0x55, 0x55,
            0x55, 0x55, 0x55, 0x50, 0xcc, 0xcc, 0xcc, 0xcc, 0xcc, 0xcc, 0xcc, 0xcc, 0xcc, 0xcc,
            0xcc, 0xcc, 0xcc, 0xcc, 0xcc, 0xcc,
        ],
    );

    let response = DiscoveryMessage::Response(response());
    assert_golden(
        response,
        &[
            0x45, 0x41, 0x42, 0x32, 0x00, 0x02, 0x00, 0x04, 0x00, 0x5b, 0x88, 0x50, 0x00, 0x01,
            0x02, 0x03, 0x04, 0x05, 0x06, 0x07, 0x08, 0x09, 0x0a, 0x0b, 0x0c, 0x0d, 0x0e, 0x0f,
            0x6b, 0x61, 0x75, 0x74, 0x68, 0x6f, 0x72, 0x69, 0x74, 0x79, 0x2d, 0x31, 0x70, 0x5b,
            0x66, 0x65, 0x38, 0x30, 0x3a, 0x3a, 0x31, 0x25, 0x33, 0x5d, 0x3a, 0x34, 0x35, 0x34,
            0x32, 0x58, 0x20, 0xa5, 0xa5, 0xa5, 0xa5, 0xa5, 0xa5, 0xa5, 0xa5, 0xa5, 0xa5, 0xa5,
            0xa5, 0xa5, 0xa5, 0xa5, 0xa5, 0xa5, 0xa5, 0xa5, 0xa5, 0xa5, 0xa5, 0xa5, 0xa5, 0xa5,
            0xa5, 0xa5, 0xa5, 0xa5, 0xa5, 0xa5, 0xa5, 0x02, 0x02, 0x82, 0x01, 0x02, 0x1a, 0x6b,
            0x49, 0xd2, 0x00,
        ],
    );
}

#[test]
fn response_round_trips_deterministically() {
    let message = DiscoveryMessage::Response(response());
    let first = message.encode().expect("response should encode");
    let decoded = DiscoveryMessage::decode(&first).expect("response should decode");
    let second = decoded.encode().expect("decoded response should re-encode");

    assert_eq!(decoded, message);
    assert_eq!(second, first);
    assert!(first.len() <= MAX_DISCOVERY_DATAGRAM_LEN);
}

#[test]
fn outer_bound_is_checked_before_header_or_cbor_decoding() {
    let oversized = vec![0_u8; MAX_DISCOVERY_DATAGRAM_LEN + 1];
    assert_eq!(
        DiscoveryMessage::decode(&oversized),
        Err(WireError::DatagramTooLarge {
            actual: MAX_DISCOVERY_DATAGRAM_LEN + 1,
            maximum: MAX_DISCOVERY_DATAGRAM_LEN,
        })
    );
}

#[test]
fn malformed_headers_and_payload_lengths_are_rejected() {
    assert!(matches!(
        DiscoveryMessage::decode(b"EAB2"),
        Err(WireError::TruncatedHeader { .. })
    ));

    let mut encoded = DiscoveryMessage::Response(response())
        .encode()
        .expect("response should encode");
    encoded[5] = 3;
    assert_eq!(
        DiscoveryMessage::decode(&encoded),
        Err(WireError::UnsupportedWireVersion(3))
    );

    encoded[5] = 2;
    encoded[7] = 99;
    assert_eq!(
        DiscoveryMessage::decode(&encoded),
        Err(WireError::UnknownMessageKind(99))
    );

    encoded[7] = DiscoveryMessageKind::Response.code() as u8;
    encoded.push(0);
    assert!(matches!(
        DiscoveryMessage::decode(&encoded),
        Err(WireError::LengthMismatch { .. })
    ));
}

#[test]
fn invalid_field_bounds_are_rejected_before_encoding() {
    let mut invalid = response();
    invalid.node_id = "x".repeat(MAX_NODE_ID_LEN + 1);
    assert_eq!(
        DiscoveryMessage::Response(invalid).encode(),
        Err(WireError::InvalidField("node_id"))
    );

    let mut invalid = response();
    invalid.capabilities = vec![1, 1];
    assert_eq!(
        DiscoveryMessage::Response(invalid).encode(),
        Err(WireError::InvalidField("capability ids must be unique"))
    );

    let mut invalid = response();
    invalid.authority_fingerprint = [0; AUTHORITY_FINGERPRINT_LEN];
    assert_eq!(
        DiscoveryMessage::Response(invalid).encode(),
        Err(WireError::InvalidField(
            "authority_fingerprint must be non-zero"
        ))
    );

    let invalid = DiscoveryProbe {
        request_id: [0; 16],
        client_nonce: client_nonce(),
        min_wire_version: 2,
        max_wire_version: 2,
    };
    assert_eq!(
        DiscoveryMessage::Probe(invalid).encode(),
        Err(WireError::InvalidField("request_id must be non-zero"))
    );
}

#[test]
fn trailing_cbor_data_is_rejected_even_with_a_matching_outer_length() {
    let mut encoded = DiscoveryMessage::Probe(DiscoveryProbe {
        request_id: request_id(),
        client_nonce: client_nonce(),
        min_wire_version: 2,
        max_wire_version: 2,
    })
    .encode()
    .expect("probe should encode");
    encoded.push(0);
    let payload_len = (encoded.len() - DISCOVERY_HEADER_LEN) as u16;
    encoded[8..10].copy_from_slice(&payload_len.to_be_bytes());

    assert_eq!(
        DiscoveryMessage::decode(&encoded),
        Err(WireError::TrailingPayloadBytes(1))
    );
}

#[test]
fn discovery_capabilities_must_be_ascending() {
    let mut invalid = response();
    invalid.capabilities = vec![2, 1];
    assert_eq!(
        DiscoveryMessage::Response(invalid).encode(),
        Err(WireError::InvalidField("capability ids must be in ascending order"))
    );
    let mut invalid = response();
    invalid.capabilities = vec![0];
    assert_eq!(
        DiscoveryMessage::Response(invalid).encode(),
        Err(WireError::InvalidField("capability id must be non-zero"))
    );
}

#[test]
fn discovery_decode_rejects_bad_magic_and_zero_expiry() {
    let mut encoded = DiscoveryMessage::Response(response()).encode().expect("encode");
    encoded[0] = b'X';
    assert_eq!(DiscoveryMessage::decode(&encoded), Err(WireError::InvalidMagic));

    let mut invalid = response();
    invalid.expires_at_unix_seconds = 0;
    assert_eq!(
        DiscoveryMessage::Response(invalid).encode(),
        Err(WireError::InvalidField("expires_at_unix_seconds must be non-zero"))
    );
}
