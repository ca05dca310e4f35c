use eab::discovery::DiscoveryState;
use eab::node::{select_trusted_authority, DiscoveryCookieIssuer, LocalAuthorityAdvertisement};
use eab::wire::{DiscoveryMessage, DiscoveryResponse};

const A: &str = "127.0.0.1:41001";
const B: &str = "127.0.0.1:41002";
const NOW: u64 = 1_800_000_000;

fn authority(node_id: &str, endpoint: &str, fingerprint: u8) -> Option<LocalAuthorityAdvertisement> {
    Some(LocalAuthorityAdvertisement {
        node_id: node_id.to_string(),
        quic_endpoint: endpoint.to_string(),
        authority_fingerprint: [fingerprint; 32],
    })
}

fn node(local: Option<LocalAuthorityAdvertisement>, key: u8) -> DiscoveryState {
    DiscoveryState::new(local, DiscoveryCookieIssuer { key: [key; 32] })
}

fn frame(message: &DiscoveryMessage) -> Vec<u8> {
    message.encode().expect("encode discovery message")
}

/// Runs one probe of `client` against `server`, returning what the client
/// learnt as changed.
fn exchange(client: &mut DiscoveryState, client_addr: &str, server: &mut DiscoveryState, server_addr: &str) -> bool {
    let probe = client.start_probe([7; 16], [9; 16], 1_000, NOW);
    let Some(challenge) = server.handle_frame(client_addr, false, &frame(&probe), NOW, 5_000) else {
        return false;
    };
    assert!(matches!(challenge, DiscoveryMessage::Challenge(_)));
    let query = client
        .handle_frame(server_addr, false, &frame(&challenge), NOW, 1_500)
        .expect("client answers its own probe's challenge");
    let response = server
        .handle_frame(client_addr, false, &frame(&query), NOW, 5_100)
        .expect("server answers a query with a fresh cookie");
    let DiscoveryMessage::Response(response) = response else {
        panic!("expected a response");
    };
    let before = client.discovered_authorities.len();
    assert!(client.handle_frame(server_addr, false, &frame(&DiscoveryMessage::Response(response)), NOW, 1_600).is_none());
    client.discovered_authorities.len() > before
}

#[test]
fn eab_node_service_completes_bounded_discovery_cookie_exchange() {
    let mut a = node(authority("authority-a", "127.0.0.1:4542", 0xaa), 1);
    let mut b = node(authority("authority-b", "127.0.0.1:4543", 0xbb), 2);

    assert!(exchange(&mut a, A, &mut b, B));
    assert!(exchange(&mut b, B, &mut a, A));

    let (source, authority_b) = a.discovered_authorities[0].clone();
    assert_eq!(source, B);
    assert_eq!(authority_b.node_id, "authority-b");
    assert_eq!(authority_b.quic_endpoint, "127.0.0.1:4543");
    assert_eq!(authority_b.authority_fingerprint, [0xbb; 32]);
    assert_eq!(
        select_trusted_authority(&a.discovered_authorities, &[[0xbb; 32]], NOW)
            .expect("authority B should match configured pin")
            .node_id,
        "authority-b"
    );
}

#[test]
fn discovery_only_client_does_not_advertise_a_nonexistent_secure_service() {
    let mut a = node(authority("authority", "127.0.0.1:4542", 0xaa), 1);
    let mut b = node(None, 2);

    assert!(exchange(&mut b, B, &mut a, A));
    assert!(!exchange(&mut a, A, &mut b, B));
    assert!(a.discovered_authorities.is_empty());
    assert_eq!(b.discovered_authorities.len(), 1);
}

#[test]
fn frames_from_self_and_stale_challenges_are_ignored() {
    let mut a = node(authority("authority", "127.0.0.1:4542", 0xaa), 1);
    let mut b = node(None, 2);
    let probe = b.start_probe([3; 16], [4; 16], 10_000, NOW);
    assert!(a.handle_frame(B, true, &frame(&probe), NOW, 0).is_none());
    let challenge = a.handle_frame(B, false, &frame(&probe), NOW, 0).expect("challenge");
    // The challenge arrives after the probe interval has passed.
    assert!(b.handle_frame(A, false, &frame(&challenge), NOW, 10_000 + 42_001).is_none());
    // A garbled frame is dropped.
    assert!(b.handle_frame(A, false, &[0u8; 3], NOW, 10_001).is_none());
}

#[test]
fn queries_with_a_foreign_cookie_get_no_response() {
    let mut a = node(authority("authority", "127.0.0.1:4542", 0xaa), 1);
    let mut b = node(None, 2);
    let probe = b.start_probe([3; 16], [4; 16], 0, NOW);
    let challenge = a.handle_frame(B, false, &frame(&probe), NOW, 0).expect("challenge");
    let query = b.handle_frame(A, false, &frame(&challenge), NOW, 1).expect("query");
    // The same query from another source does not carry that source's cookie.
    assert!(a.handle_frame("127.0.0.1:9", false, &frame(&query), NOW, 2).is_none());
    // Two buckets later the cookie has expired.
    assert!(a.handle_frame(B, false, &frame(&query), NOW + 180, 3).is_none());
}

#[test]
fn expired_and_unsolicited_responses_are_not_remembered() {
    let mut b = node(None, 2);
    b.start_probe([5; 16], [6; 16], 0, NOW);
    let mut response = DiscoveryResponse {
        request_id: [5; 16],
        node_id: "authority".into(),
        quic_endpoint: "127.0.0.1:4542".into(),
        authority_fingerprint: [0xaa; 32],
        min_wire_version: 2,
        max_wire_version: 2,
        capabilities: Vec::new(),
        expires_at_unix_seconds: NOW,
    };
    assert!(!b.handle_discovery_response(A, &response, NOW));
    response.expires_at_unix_seconds = NOW + 10;
    response.request_id = [1; 16];
    assert!(!b.handle_discovery_response(A, &response, NOW));
    response.request_id = [5; 16];
    assert!(b.handle_discovery_response(A, &response, NOW));
    // Hearing the same response again changes nothing.
    assert!(!b.handle_discovery_response(A, &response, NOW));
    assert_eq!(b.discovered_authorities.len(), 1);
    // Once it has expired, a new probe forgets it.
    b.start_probe([8; 16], [8; 16], 1, NOW + 10);
    assert!(b.discovered_authorities.is_empty());
}
