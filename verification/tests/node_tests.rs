use eab::node::{
    constant_time_equal, resolve_authority_fingerprint_list, select_trusted_authority,
    validate_local_authority, version_ranges_overlap, DiscoveryCookieIssuer,
    EabNodeStatusProvider, LocalAuthorityAdvertisement, StaticStatusProvider,
    DISCOVERY_COOKIE_BUCKET_SECONDS,
};
use eab::wire::DiscoveryResponse;

fn discovery_response(
    node_id: &str,
    endpoint: &str,
    fingerprint: [u8; 32],
    expiry: u64,
) -> DiscoveryResponse {
    DiscoveryResponse {
        request_id: [1; 16],
        node_id: node_id.to_string(),
        quic_endpoint: endpoint.to_string(),
        authority_fingerprint: fingerprint,
        min_wire_version: 2,
        max_wire_version: 2,
        capabilities: Vec::new(),
        expires_at_unix_seconds: expiry,
    }
}

#[test]
fn discovery_cookie_is_bound_to_source_request_nonce_and_recent_time() {
    let issuer = DiscoveryCookieIssuer { key: [0x42; 32] };
    let source = "127.0.0.1:41000";
    let other_source = "127.0.0.1:41001";
    let request_id = [1; 16];
    let client_nonce = [2; 16];
    let now = DISCOVERY_COOKIE_BUCKET_SECONDS * 20;
    let cookie = issuer.issue(source, &request_id, &client_nonce, now);

    assert!(issuer.validate(source, &request_id, &client_nonce, &cookie, now));
    assert!(issuer.validate(
        source,
        &request_id,
        &client_nonce,
        &cookie,
        now + DISCOVERY_COOKIE_BUCKET_SECONDS
    ));
    assert!(!issuer.validate(
        source,
        &request_id,
        &client_nonce,
        &cookie,
        now + (2 * DISCOVERY_COOKIE_BUCKET_SECONDS)
    ));
    assert!(!issuer.validate(other_source, &request_id, &client_nonce, &cookie, now));
    assert!(!issuer.validate(source, &[3; 16], &client_nonce, &cookie, now));
    assert!(!issuer.validate(source, &request_id, &[4; 16], &cookie, now));
    assert!(constant_time_equal(&cookie, &cookie));
}

#[test]
fn cookie_is_the_keyed_blake3_hash_prefix() {
    let issuer = DiscoveryCookieIssuer { key: [0x42; 32] };
    let mut input = b"eab-discovery-cookie\0".to_vec();
    input.extend_from_slice(b"127.0.0.1:41000");
    input.extend_from_slice(&[1; 16]);
    input.extend_from_slice(&[2; 16]);
    input.extend_from_slice(&20u64.to_be_bytes());
    let digest = blake3::keyed_hash(&[0x42; 32], &input);
    let cookie = issuer.issue_for_bucket("127.0.0.1:41000", &[1; 16], &[2; 16], 20);
    assert_eq!(&cookie[..], &digest.as_bytes()[..16]);
}

#[test]
fn trusted_authority_selection_filters_pins_and_is_deterministic() {
    let preferred_source = "127.0.0.1:42001";
    let fallback_source = "127.0.0.1:42002";
    let untrusted_source = "127.0.0.1:42003";
    let expired_source = "127.0.0.1:42004";
    let incompatible_source = "127.0.0.1:42005";
    let mut candidates = Vec::new();
    candidates.push((
        fallback_source.to_string(),
        discovery_response("fallback", "127.0.0.1:4543", [0xbb; 32], 200),
    ));
    candidates.push((
        preferred_source.to_string(),
        discovery_response("preferred", "127.0.0.1:4542", [0xaa; 32], 200),
    ));
    candidates.push((
        untrusted_source.to_string(),
        discovery_response("untrusted", "127.0.0.1:4544", [0xcc; 32], 200),
    ));
    candidates.push((
        expired_source.to_string(),
        discovery_response("expired", "127.0.0.1:4545", [0xaa; 32], 99),
    ));
    let mut incompatible = discovery_response("incompatible", "127.0.0.1:4546", [0xaa; 32], 200);
    incompatible.min_wire_version = 3;
    incompatible.max_wire_version = 3;
    candidates.push((incompatible_source.to_string(), incompatible));

    let selected = select_trusted_authority(&candidates, &[[0xaa; 32], [0xbb; 32]], 100)
        .expect("a trusted authority should be selected");
    assert_eq!(selected.discovery_source, preferred_source);
    assert_eq!(selected.node_id, "preferred");

    let selected = select_trusted_authority(&candidates, &[[0xbb; 32], [0xaa; 32]], 100)
        .expect("pin order should define preference");
    assert_eq!(selected.discovery_source, fallback_source);

    assert!(select_trusted_authority(&candidates, &[[0xdd; 32]], 100).is_none());
    assert!(select_trusted_authority(&candidates, &[], 100).is_none());
}

#[test]
fn equal_pins_order_by_node_id_then_source() {
    let candidates = vec![
        ("10.0.0.2:1".to_string(), discovery_response("b", "e", [0xaa; 32], 200)),
        ("10.0.0.3:1".to_string(), discovery_response("a", "e", [0xaa; 32], 200)),
        ("10.0.0.1:1".to_string(), discovery_response("a", "e", [0xaa; 32], 200)),
    ];
    let selected = select_trusted_authority(&candidates, &[[0xaa; 32]], 100).unwrap();
    assert_eq!(selected.discovery_source, "10.0.0.1:1");
    assert_eq!(selected.node_id, "a");
}

#[test]
fn trusted_authority_pin_configuration_is_bounded_and_fail_closed() {
    let pin_a = "11".repeat(32);
    let pin_b = "22".repeat(32);
    let parsed =
        resolve_authority_fingerprint_list(&format!("{pin_a}, {pin_b}\n{pin_a}")).unwrap();
    assert_eq!(parsed, vec![[0x11; 32], [0x22; 32]]);

    assert!(resolve_authority_fingerprint_list("").unwrap().is_empty());
    assert!(resolve_authority_fingerprint_list("00").is_err());
    assert!(resolve_authority_fingerprint_list(&"00".repeat(32)).is_err());
    assert!(resolve_authority_fingerprint_list("not-hex").is_err());
}

#[test]
fn pin_errors_carry_their_reason() {
    assert_eq!(
        resolve_authority_fingerprint_list("00").unwrap_err(),
        "trusted authority fingerprint must encode exactly 32 bytes"
    );
    assert_eq!(
        resolve_authority_fingerprint_list(&"00".repeat(32)).unwrap_err(),
        "trusted authority fingerprint must be non-zero"
    );
    assert!(resolve_authority_fingerprint_list("zz")
        .unwrap_err()
        .starts_with("invalid trusted authority fingerprint zz: "));
    let upper = "AB".repeat(32);
    assert_eq!(
        resolve_authority_fingerprint_list(&format!(" \t{upper},,")).unwrap(),
        vec![[0xab; 32]]
    );
}

#[test]
fn local_authority_is_checked_like_a_response() {
    let good = LocalAuthorityAdvertisement {
        node_id: "node".into(),
        quic_endpoint: "127.0.0.1:4542".into(),
        authority_fingerprint: [7; 32],
    };
    assert!(validate_local_authority(&good).is_ok());
    let mut bad = good.clone();
    bad.node_id = String::new();
    assert_eq!(
        validate_local_authority(&bad).unwrap_err(),
        "invalid local EAB authority advertisement: invalid discovery field: node_id"
    );
    assert!(version_ranges_overlap(1, 2, 2, 2));
    assert!(!version_ranges_overlap(3, 3, 2, 2));
}

#[test]
fn static_status_provider_reports_its_backend() {
    let provider = StaticStatusProvider::new("file");
    let snapshot = provider.snapshot();
    assert_eq!(snapshot.ledger_backend, "file");
    assert_eq!(snapshot.anchor_outbox_pending, 0);
    assert!(snapshot.last_anchor_error.is_none());
}

#[test]
fn selection_does_not_depend_on_discovery_order() {
    let mut candidates = vec![
        ("10.0.0.2:1".to_string(), discovery_response("b", "e", [0xaa; 32], 200)),
        ("10.0.0.3:1".to_string(), discovery_response("a", "e", [0xbb; 32], 200)),
        ("10.0.0.4:1".to_string(), discovery_response("a", "e", [0xaa; 32], 200)),
        ("10.0.0.1:1".to_string(), discovery_response("a", "e", [0xaa; 32], 200)),
    ];
    let pins = [[0xaa; 32], [0xbb; 32]];
    let forward = select_trusted_authority(&candidates, &pins, 100).expect("selected");
    candidates.reverse();
    let backward = select_trusted_authority(&candidates, &pins, 100).expect("selected");
    assert_eq!(forward.discovery_source, "10.0.0.1:1");
    assert_eq!(forward.discovery_source, backward.discovery_source);
    assert_eq!(forward.node_id, backward.node_id);
}
