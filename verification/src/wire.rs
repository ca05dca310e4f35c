//! Versioned, bounded discovery datagrams.
//!
//! A frame is a fixed ten-byte header (magic, wire version, message kind,
//! payload length) followed by a deterministic, definite-length CBOR body.

use vstd::prelude::*;
use vstd::utf8::*;
use crate::cbor::{
    cbor_array_at, cbor_bytes, cbor_head, cbor_read_array, cbor_text, cbor_uint_at, cbor_write_array, cbor_write_bytes, cbor_write_str,
    cbor_write_u64, MAJOR_ARRAY, MAJOR_TEXT, MAJOR_UNSIGNED,
};
use crate::text::{decimal_text, push_decimal};
use crate::codec::{
    expect_array, lemma_head_bounds, lemma_parse_array, lemma_parse_bytes, lemma_parse_text,
    lemma_parse_uint, lemma_placed_split, parse_array_n, parse_bytes_n, parse_text,
    parse_uint_max, placed, read_bytes16, read_bytes32, read_text, read_u16, read_u64,
    parse_text_allow_controls,
};

verus! {

/// Identifies an EAB V2 raw discovery datagram (`"EAB2"`).
pub const DISCOVERY_MAGIC: [u8; 4] = [0x45, 0x41, 0x42, 0x32];
/// Current discovery frame version.
pub const DISCOVERY_WIRE_VERSION: u16 = 2;
/// Fixed bytes before a discovery CBOR payload.
pub const DISCOVERY_HEADER_LEN: usize = 10;
/// Conservative upper bound for an entire discovery datagram.
pub const MAX_DISCOVERY_DATAGRAM_LEN: usize = 1200;
/// Largest node identifier accepted from unauthenticated discovery traffic.
pub const MAX_NODE_ID_LEN: usize = 64;
/// Largest textual QUIC endpoint accepted from discovery traffic.
pub const MAX_ENDPOINT_LEN: usize = 255;
/// Number of bytes in the first supported SHA-256 authority fingerprint.
pub const AUTHORITY_FINGERPRINT_LEN: usize = 32;
/// Size of client nonces and opaque server reachability cookies.
pub const DISCOVERY_TOKEN_LEN: usize = 16;
/// Maximum advertised capabilities in one discovery response.
pub const MAX_CAPABILITIES: usize = 32;
/// Capability identifier for a secure canonical achievement-claim service.
pub const CAPABILITY_ACHIEVEMENT_CLAIM: u16 = 1;
/// Capability identifier for authenticated detailed node status.
pub const CAPABILITY_NODE_STATUS: u16 = 2;

/// Errors of the discovery and secure wire codecs.
#[derive(Debug, PartialEq, Eq)]
pub enum WireError {
    DatagramTooLarge { actual: usize, maximum: usize },
    FrameTooLarge { actual: usize, maximum: usize },
    TruncatedHeader { actual: usize, required: usize },
    InvalidMagic,
    UnsupportedWireVersion(u16),
    UnknownMessageKind(u16),
    LengthMismatch { declared: usize, actual: usize },
    InvalidField(&'static str),
    IndefiniteLength(&'static str),
    UnexpectedArrayLength { field: &'static str, expected: u64, actual: u64 },
    TrailingPayloadBytes(usize),
    CborEncode(String),
    CborDecode(String),
}

// ---------------------------------------------------------------------
// Field rules shared by the discovery and secure messages.
// ---------------------------------------------------------------------

/// A Unicode control character (general category `Cc`).
pub open spec fn is_control(c: char) -> bool {
    (c as u32) <= 0x1f || (0x7f <= (c as u32) && (c as u32) <= 0x9f)
}

/// Non-empty, at most `maximum` UTF-8 bytes, and no control character.
pub open spec fn text_ok(s: Seq<char>, maximum: int) -> bool {
    &&& s.len() > 0
    &&& encode_utf8(s).len() <= maximum
    &&& forall|i: int| 0 <= i < s.len() ==> !is_control(#[trigger] s[i])
}

/// Non-empty and at most `maximum` UTF-8 bytes.
pub open spec fn text_allow_controls_ok(s: Seq<char>, maximum: int) -> bool {
    s.len() > 0 && encode_utf8(s).len() <= maximum
}

/// Some byte is non-zero.
pub open spec fn nonzero(b: Seq<u8>) -> bool {
    exists|i: int| 0 <= i < b.len() && b[i] != 0
}

/// Both bounds non-zero and in order.
pub open spec fn version_range_ok(minimum: u16, maximum: u16) -> bool {
    minimum != 0 && maximum != 0 && minimum <= maximum
}

/// Whether `value` holds a control character.
pub fn has_control(value: &str) -> (r: bool)
    ensures
        r == exists|i: int| 0 <= i < value@.len() && is_control(#[trigger] value@[i]),
{
    broadcast use vstd::string::axiom_spec_iter;

    let mut found = false;
    for c in it: value.chars()
        invariant
            it.seq() == value@,
            found == exists|j: int| 0 <= j < it.index() && is_control(#[trigger] value@[j]),
    {
        assert(c == value@[it.index() as int]);
        let n = c as u32;
        if n <= 0x1f || (0x7f <= n && n <= 0x9f) {
            found = true;
        }
    }
    found
}

/// Rejects empty, over-long or control-bearing text with `InvalidField(field)`.
pub fn validate_text(value: &str, maximum: usize, field: &'static str) -> (r: Result<
    (),
    WireError,
>)
    ensures
        r == (if text_ok(value@, maximum as int) {
            Ok(())
        } else {
            Err(WireError::InvalidField(field))
        }),
{
    if value.is_empty() || value.as_bytes().len() > maximum || has_control(value) {
        return Err(WireError::InvalidField(field));
    }
    Ok(())
}

/// Rejects empty or over-long text with `InvalidField(field)`; control
/// characters are allowed.
pub fn validate_text_allow_controls(value: &str, maximum: usize, field: &'static str) -> (r:
    Result<(), WireError>)
    ensures
        r == (if text_allow_controls_ok(value@, maximum as int) {
            Ok(())
        } else {
            Err(WireError::InvalidField(field))
        }),
{
    if value.is_empty() || value.as_bytes().len() > maximum {
        return Err(WireError::InvalidField(field));
    }
    Ok(())
}

/// Whether every byte of `bytes` is zero.
pub fn all_zero(bytes: &[u8]) -> (r: bool)
    ensures
        r == !nonzero(bytes@),
{
    let mut i: usize = 0;
    while i < bytes.len()
        invariant
            i <= bytes@.len(),
            forall|j: int| 0 <= j < i ==> bytes@[j] == 0,
        decreases bytes@.len() - i,
    {
        if bytes[i] != 0 {
            return false;
        }
        i = i + 1;
    }
    true
}

/// A request id must hold a non-zero byte.
pub fn validate_request_id(request_id: &[u8; 16]) -> (r: Result<(), WireError>)
    ensures
        r == (if nonzero(request_id@) {
            Ok(())
        } else {
            Err(WireError::InvalidField("request_id must be non-zero"))
        }),
{
    if all_zero(request_id.as_slice()) {
        return Err(WireError::InvalidField("request_id must be non-zero"));
    }
    Ok(())
}

/// A nonce, cookie or fingerprint must hold a non-zero byte.
pub fn validate_token(token: &[u8], error: &'static str) -> (r: Result<(), WireError>)
    ensures
        r == (if nonzero(token@) {
            Ok(())
        } else {
            Err(WireError::InvalidField(error))
        }),
{
    if all_zero(token) {
        return Err(WireError::InvalidField(error));
    }
    Ok(())
}

/// A wire version range must be non-zero and ordered.
pub fn validate_version_range(minimum: u16, maximum: u16) -> (r: Result<(), WireError>)
    ensures
        r == (if version_range_ok(minimum, maximum) {
            Ok(())
        } else {
            Err(WireError::InvalidField("invalid wire version range"))
        }),
{
    if minimum == 0 || maximum == 0 || minimum > maximum {
        return Err(WireError::InvalidField("invalid wire version range"));
    }
    Ok(())
}

// ---------------------------------------------------------------------
// Discovery messages
// ---------------------------------------------------------------------

/// Stable numeric type ids in the raw EAB V2 discovery header.
#[derive(Clone, Copy, Debug, PartialEq, Eq, Structural)]
pub enum DiscoveryMessageKind {
    Probe,
    Challenge,
    Query,
    Response,
}

impl DiscoveryMessageKind {
    /// The id written in the header.
    pub open spec fn code_of(self) -> u16 {
        match self {
            DiscoveryMessageKind::Probe => 1,
            DiscoveryMessageKind::Challenge => 2,
            DiscoveryMessageKind::Query => 3,
            DiscoveryMessageKind::Response => 4,
        }
    }

    /// The id written in the header.
    pub fn code(self) -> (r: u16)
        ensures
            r == self.code_of(),
    {
        match self {
            DiscoveryMessageKind::Probe => 1,
            DiscoveryMessageKind::Challenge => 2,
            DiscoveryMessageKind::Query => 3,
            DiscoveryMessageKind::Response => 4,
        }
    }

    /// The kind with header id `value`; another id is `UnknownMessageKind`.
    pub fn from_code(value: u16) -> (r: Result<DiscoveryMessageKind, WireError>)
        ensures
            1 <= value <= 4 ==> r is Ok && r->Ok_0.code_of() == value,
            !(1 <= value <= 4) ==> r == Err::<DiscoveryMessageKind, WireError>(
                WireError::UnknownMessageKind(value),
            ),
    {
        match value {
            1 => Ok(DiscoveryMessageKind::Probe),
            2 => Ok(DiscoveryMessageKind::Challenge),
            3 => Ok(DiscoveryMessageKind::Query),
            4 => Ok(DiscoveryMessageKind::Response),
            other => Err(WireError::UnknownMessageKind(other)),
        }
    }
}

/// A small discovery request. Responses correlate on `request_id`.
#[derive(Clone, Debug, PartialEq, Eq)]
pub struct DiscoveryProbe {
    pub request_id: [u8; 16],
    pub client_nonce: [u8; 16],
    pub min_wire_version: u16,
    pub max_wire_version: u16,
}

/// A small server response carrying an opaque, source-bound cookie.
#[derive(Clone, Debug, PartialEq, Eq)]
pub struct DiscoveryChallenge {
    pub request_id: [u8; 16],
    pub cookie: [u8; 16],
}

/// A client proves return reachability by echoing its nonce and the cookie.
#[derive(Clone, Debug, PartialEq, Eq)]
pub struct DiscoveryQuery {
    pub request_id: [u8; 16],
    pub client_nonce: [u8; 16],
    pub cookie: [u8; 16],
}

/// Public, low-trust authority metadata returned by discovery.
#[derive(Clone, Debug, PartialEq, Eq)]
pub struct DiscoveryResponse {
    pub request_id: [u8; 16],
    pub node_id: String,
    pub quic_endpoint: String,
    pub authority_fingerprint: [u8; 32],
    pub min_wire_version: u16,
    pub max_wire_version: u16,
    pub capabilities: Vec<u16>,
    pub expires_at_unix_seconds: u64,
}

/// All messages permitted on the raw multicast discovery plane.
#[derive(Clone, Debug, PartialEq, Eq)]
pub enum DiscoveryMessage {
    Probe(DiscoveryProbe),
    Challenge(DiscoveryChallenge),
    Query(DiscoveryQuery),
    Response(DiscoveryResponse),
}

pub struct DiscoveryProbeView {
    pub request_id: Seq<u8>,
    pub client_nonce: Seq<u8>,
    pub min_wire_version: u16,
    pub max_wire_version: u16,
}

pub struct DiscoveryChallengeView {
    pub request_id: Seq<u8>,
    pub cookie: Seq<u8>,
}

pub struct DiscoveryQueryView {
    pub request_id: Seq<u8>,
    pub client_nonce: Seq<u8>,
    pub cookie: Seq<u8>,
}

pub struct DiscoveryResponseView {
    pub request_id: Seq<u8>,
    pub node_id: Seq<char>,
    pub quic_endpoint: Seq<char>,
    pub authority_fingerprint: Seq<u8>,
    pub min_wire_version: u16,
    pub max_wire_version: u16,
    pub capabilities: Seq<u16>,
    pub expires_at_unix_seconds: u64,
}

pub enum DiscoveryMessageView {
    Probe(DiscoveryProbeView),
    Challenge(DiscoveryChallengeView),
    Query(DiscoveryQueryView),
    Response(DiscoveryResponseView),
}

impl View for DiscoveryProbe {
    type V = DiscoveryProbeView;

    open spec fn view(&self) -> DiscoveryProbeView {
        DiscoveryProbeView {
            request_id: self.request_id@,
            client_nonce: self.client_nonce@,
            min_wire_version: self.min_wire_version,
            max_wire_version: self.max_wire_version,
        }
    }
}

impl View for DiscoveryChallenge {
    type V = DiscoveryChallengeView;

    open spec fn view(&self) -> DiscoveryChallengeView {
        DiscoveryChallengeView { request_id: self.request_id@, cookie: self.cookie@ }
    }
}

impl View for DiscoveryQuery {
    type V = DiscoveryQueryView;

    open spec fn view(&self) -> DiscoveryQueryView {
        DiscoveryQueryView {
            request_id: self.request_id@,
            client_nonce: self.client_nonce@,
            cookie: self.cookie@,
        }
    }
}

impl View for DiscoveryResponse {
    type V = DiscoveryResponseView;

    open spec fn view(&self) -> DiscoveryResponseView {
        DiscoveryResponseView {
            request_id: self.request_id@,
            node_id: self.node_id@,
            quic_endpoint: self.quic_endpoint@,
            authority_fingerprint: self.authority_fingerprint@,
            min_wire_version: self.min_wire_version,
            max_wire_version: self.max_wire_version,
            capabilities: self.capabilities@,
            expires_at_unix_seconds: self.expires_at_unix_seconds,
        }
    }
}

impl View for DiscoveryMessage {
    type V = DiscoveryMessageView;

    open spec fn view(&self) -> DiscoveryMessageView {
        match self {
            DiscoveryMessage::Probe(m) => DiscoveryMessageView::Probe(m@),
            DiscoveryMessage::Challenge(m) => DiscoveryMessageView::Challenge(m@),
            DiscoveryMessage::Query(m) => DiscoveryMessageView::Query(m@),
            DiscoveryMessage::Response(m) => DiscoveryMessageView::Response(m@),
        }
    }
}

/// The kind of a message.
pub open spec fn discovery_kind_of(m: DiscoveryMessageView) -> DiscoveryMessageKind {
    match m {
        DiscoveryMessageView::Probe(_) => DiscoveryMessageKind::Probe,
        DiscoveryMessageView::Challenge(_) => DiscoveryMessageKind::Challenge,
        DiscoveryMessageView::Query(_) => DiscoveryMessageKind::Query,
        DiscoveryMessageView::Response(_) => DiscoveryMessageKind::Response,
    }
}

/// The result of a validation that found `fault` (or nothing).
pub open spec fn fault_result(fault: Option<&'static str>) -> Result<(), WireError> {
    match fault {
        None => Ok(()),
        Some(f) => Err(WireError::InvalidField(f)),
    }
}

pub open spec fn probe_fault(p: DiscoveryProbeView) -> Option<&'static str> {
    if !nonzero(p.request_id) {
        Some("request_id must be non-zero")
    } else if !nonzero(p.client_nonce) {
        Some("client_nonce must be non-zero")
    } else if !version_range_ok(p.min_wire_version, p.max_wire_version) {
        Some("invalid wire version range")
    } else {
        None
    }
}

pub open spec fn challenge_fault(c: DiscoveryChallengeView) -> Option<&'static str> {
    if !nonzero(c.request_id) {
        Some("request_id must be non-zero")
    } else if !nonzero(c.cookie) {
        Some("cookie must be non-zero")
    } else {
        None
    }
}

pub open spec fn query_fault(q: DiscoveryQueryView) -> Option<&'static str> {
    if !nonzero(q.request_id) {
        Some("request_id must be non-zero")
    } else if !nonzero(q.client_nonce) {
        Some("client_nonce must be non-zero")
    } else if !nonzero(q.cookie) {
        Some("cookie must be non-zero")
    } else {
        None
    }
}

/// The first capability at or after `i` that is zero or repeats an earlier
/// one, reported as the fault it raises.
pub open spec fn capability_fault_from(caps: Seq<u16>, i: int) -> Option<&'static str>
    decreases caps.len() - i,
{
    if i < 0 || i >= caps.len() {
        None
    } else if caps[i] == 0 {
        Some("capability id must be non-zero")
    } else if caps.subrange(0, i).contains(caps[i]) {
        Some("capability ids must be unique")
    } else {
        capability_fault_from(caps, i + 1)
    }
}

/// Each capability is smaller than the next.
pub open spec fn strictly_ascending(caps: Seq<u16>) -> bool {
    forall|i: int| 0 <= i < caps.len() - 1 ==> #[trigger] caps[i] < caps[i + 1]
}

pub open spec fn response_fault(r: DiscoveryResponseView) -> Option<&'static str> {
    if !nonzero(r.request_id) {
        Some("request_id must be non-zero")
    } else if !nonzero(r.authority_fingerprint) {
        Some("authority_fingerprint must be non-zero")
    } else if !version_range_ok(r.min_wire_version, r.max_wire_version) {
        Some("invalid wire version range")
    } else if !text_ok(r.node_id, MAX_NODE_ID_LEN as int) {
        Some("node_id")
    } else if !text_ok(r.quic_endpoint, MAX_ENDPOINT_LEN as int) {
        Some("quic_endpoint")
    } else if r.expires_at_unix_seconds == 0 {
        Some("expires_at_unix_seconds must be non-zero")
    } else if r.capabilities.len() > MAX_CAPABILITIES {
        Some("capabilities exceeds maximum")
    } else if capability_fault_from(r.capabilities, 0) is Some {
        capability_fault_from(r.capabilities, 0)
    } else if !strictly_ascending(r.capabilities) {
        Some("capability ids must be in ascending order")
    } else {
        None
    }
}

/// The first rule that a discovery message breaks, if any.
pub open spec fn discovery_fault(m: DiscoveryMessageView) -> Option<&'static str> {
    match m {
        DiscoveryMessageView::Probe(p) => probe_fault(p),
        DiscoveryMessageView::Challenge(c) => challenge_fault(c),
        DiscoveryMessageView::Query(q) => query_fault(q),
        DiscoveryMessageView::Response(r) => response_fault(r),
    }
}

pub fn validate_probe(probe: &DiscoveryProbe) -> (r: Result<(), WireError>)
    ensures
        r == fault_result(probe_fault(probe@)),
{
    validate_request_id(&probe.request_id)?;
    validate_token(probe.client_nonce.as_slice(), "client_nonce must be non-zero")?;
    validate_version_range(probe.min_wire_version, probe.max_wire_version)
}

pub fn validate_challenge(challenge: &DiscoveryChallenge) -> (r: Result<(), WireError>)
    ensures
        r == fault_result(challenge_fault(challenge@)),
{
    validate_request_id(&challenge.request_id)?;
    validate_token(challenge.cookie.as_slice(), "cookie must be non-zero")
}

pub fn validate_query(query: &DiscoveryQuery) -> (r: Result<(), WireError>)
    ensures
        r == fault_result(query_fault(query@)),
{
    validate_request_id(&query.request_id)?;
    validate_token(query.client_nonce.as_slice(), "client_nonce must be non-zero")?;
    validate_token(query.cookie.as_slice(), "cookie must be non-zero")
}

#[verifier::loop_isolation(false)]
pub fn validate_response(response: &DiscoveryResponse) -> (r: Result<(), WireError>)
    ensures
        r == fault_result(response_fault(response@)),
{
    validate_request_id(&response.request_id)?;
    validate_token(
        response.authority_fingerprint.as_slice(),
        "authority_fingerprint must be non-zero",
    )?;
    validate_version_range(response.min_wire_version, response.max_wire_version)?;
    validate_text(response.node_id.as_str(), MAX_NODE_ID_LEN, "node_id")?;
    validate_text(response.quic_endpoint.as_str(), MAX_ENDPOINT_LEN, "quic_endpoint")?;
    if response.expires_at_unix_seconds == 0 {
        return Err(WireError::InvalidField("expires_at_unix_seconds must be non-zero"));
    }
    let caps = &response.capabilities;
    if caps.len() > MAX_CAPABILITIES {
        return Err(WireError::InvalidField("capabilities exceeds maximum"));
    }
    let ghost all = caps@;
    let mut i: usize = 0;
    while i < caps.len()
        invariant
            i <= caps@.len(),
            all == caps@,
            capability_fault_from(all, 0) == capability_fault_from(all, i as int),
        decreases caps@.len() - i,
    {
        let c = caps[i];
        if c == 0 {
            assert(capability_fault_from(all, i as int) == Some("capability id must be non-zero"));
            return Err(WireError::InvalidField("capability id must be non-zero"));
        }
        let mut j: usize = 0;
        while j < i
            invariant
                j <= i < caps@.len(),
                c == caps@[i as int],
                forall|k: int| 0 <= k < j ==> caps@[k] != c,
            decreases i - j,
        {
            if caps[j] == c {
                assert(caps@.subrange(0, i as int)[j as int] == c);
                assert(caps@.subrange(0, i as int).contains(c));
                assert(capability_fault_from(all, i as int) == Some("capability ids must be unique"));
                return Err(WireError::InvalidField("capability ids must be unique"));
            }
            j = j + 1;
        }
        assert(!caps@.subrange(0, i as int).contains(c)) by {
            if caps@.subrange(0, i as int).contains(c) {
                let k = choose|k: int| 0 <= k < i && caps@.subrange(0, i as int)[k] == c;
                assert(caps@[k] == c);
            }
        }
        assert(capability_fault_from(all, i as int) == capability_fault_from(all, i + 1));
        i = i + 1;
    }
    assert(capability_fault_from(all, i as int) is None);
    let mut k: usize = 1;
    while k < caps.len()
        invariant
            1 <= k,
            forall|m: int| 0 <= m < k - 1 && m < caps@.len() - 1 ==> #[trigger] caps@[m] < caps@[m + 1],
        decreases caps@.len() - k,
    {
        if !(caps[k - 1] < caps[k]) {
            assert(!strictly_ascending(caps@)) by {
                assert(!(caps@[k - 1] < caps@[(k - 1) + 1]));
            }
            return Err(WireError::InvalidField("capability ids must be in ascending order"));
        }
        k = k + 1;
    }
    Ok(())
}

impl DiscoveryMessage {
    pub fn kind(&self) -> (r: DiscoveryMessageKind)
        ensures
            r == discovery_kind_of(self@),
    {
        match self {
            DiscoveryMessage::Probe(_) => DiscoveryMessageKind::Probe,
            DiscoveryMessage::Challenge(_) => DiscoveryMessageKind::Challenge,
            DiscoveryMessage::Query(_) => DiscoveryMessageKind::Query,
            DiscoveryMessage::Response(_) => DiscoveryMessageKind::Response,
        }
    }

    pub fn validate(&self) -> (r: Result<(), WireError>)
        ensures
            r == fault_result(discovery_fault(self@)),
    {
        match self {
            DiscoveryMessage::Probe(probe) => validate_probe(probe),
            DiscoveryMessage::Challenge(challenge) => validate_challenge(challenge),
            DiscoveryMessage::Query(query) => validate_query(query),
            DiscoveryMessage::Response(response) => validate_response(response),
        }
    }
}

// ---------------------------------------------------------------------
// Encoding
// ---------------------------------------------------------------------

/// Unsigned integer items for each capability, in order.
pub open spec fn u16_items(caps: Seq<u16>) -> Seq<u8>
    decreases caps.len(),
{
    if caps.len() == 0 {
        Seq::empty()
    } else {
        u16_items(caps.drop_last()) + cbor_head(MAJOR_UNSIGNED, caps.last() as u64)
    }
}

pub open spec fn probe_payload(p: DiscoveryProbeView) -> Seq<u8> {
    cbor_head(MAJOR_ARRAY, 4) + cbor_bytes(p.request_id) + cbor_bytes(p.client_nonce) + cbor_head(
        MAJOR_UNSIGNED,
        p.min_wire_version as u64,
    ) + cbor_head(MAJOR_UNSIGNED, p.max_wire_version as u64)
}

pub open spec fn challenge_payload(c: DiscoveryChallengeView) -> Seq<u8> {
    cbor_head(MAJOR_ARRAY, 2) + cbor_bytes(c.request_id) + cbor_bytes(c.cookie)
}

pub open spec fn query_payload(q: DiscoveryQueryView) -> Seq<u8> {
    cbor_head(MAJOR_ARRAY, 3) + cbor_bytes(q.request_id) + cbor_bytes(q.client_nonce) + cbor_bytes(
        q.cookie,
    )
}

pub open spec fn response_payload(r: DiscoveryResponseView) -> Seq<u8> {
    cbor_head(MAJOR_ARRAY, 8) + cbor_bytes(r.request_id) + cbor_text(r.node_id) + cbor_text(
        r.quic_endpoint,
    ) + cbor_bytes(r.authority_fingerprint) + cbor_head(
        MAJOR_UNSIGNED,
        r.min_wire_version as u64,
    ) + cbor_head(MAJOR_UNSIGNED, r.max_wire_version as u64) + cbor_head(
        MAJOR_ARRAY,
        r.capabilities.len() as u64,
    ) + u16_items(r.capabilities) + cbor_head(MAJOR_UNSIGNED, r.expires_at_unix_seconds)
}

/// The CBOR body of a discovery message.
pub open spec fn discovery_payload(m: DiscoveryMessageView) -> Seq<u8> {
    match m {
        DiscoveryMessageView::Probe(p) => probe_payload(p),
        DiscoveryMessageView::Challenge(c) => challenge_payload(c),
        DiscoveryMessageView::Query(q) => query_payload(q),
        DiscoveryMessageView::Response(r) => response_payload(r),
    }
}

/// `v` in two bytes, most significant first.
pub open spec fn u16_be(v: u16) -> Seq<u8> {
    seq![(v / 256) as u8, (v % 256) as u8]
}

/// The bytes of `DISCOVERY_MAGIC`.
pub open spec fn discovery_magic() -> Seq<u8> {
    seq![0x45u8, 0x41u8, 0x42u8, 0x32u8]
}

/// The complete datagram of a discovery message.
pub open spec fn discovery_frame(m: DiscoveryMessageView) -> Seq<u8> {
    discovery_magic() + u16_be(DISCOVERY_WIRE_VERSION) + u16_be(discovery_kind_of(m).code_of())
        + u16_be(discovery_payload(m).len() as u16) + discovery_payload(m)
}

/// A challenge datagram is never larger than the probe it answers, so
/// answering a probe from a spoofed source amplifies nothing.
pub proof fn lemma_challenge_no_larger_than_probe(p: DiscoveryProbe, c: DiscoveryChallenge)
    ensures
        discovery_frame(DiscoveryMessageView::Challenge(c@)).len() <= discovery_frame(
            DiscoveryMessageView::Probe(p@),
        ).len(),
{
    assert(p@.request_id.len() == 16 && p@.client_nonce.len() == 16);
    assert(c@.request_id.len() == 16 && c@.cookie.len() == 16);
    assert(cbor_head(MAJOR_UNSIGNED, p@.min_wire_version as u64).len() >= 1);
    assert(cbor_head(MAJOR_UNSIGNED, p@.max_wire_version as u64).len() >= 1);
    assert(probe_payload(p@).len() >= challenge_payload(c@).len());
}

fn encode_probe(out: &mut Vec<u8>, probe: &DiscoveryProbe)
    ensures
        final(out)@ == old(out)@ + probe_payload(probe@),
{
    cbor_write_array(out, 4);
    cbor_write_bytes(out, probe.request_id.as_slice());
    cbor_write_bytes(out, probe.client_nonce.as_slice());
    cbor_write_u64(out, probe.min_wire_version as u64);
    cbor_write_u64(out, probe.max_wire_version as u64);
    assert(out@ =~= old(out)@ + probe_payload(probe@));
}

fn encode_challenge(out: &mut Vec<u8>, challenge: &DiscoveryChallenge)
    ensures
        final(out)@ == old(out)@ + challenge_payload(challenge@),
{
    cbor_write_array(out, 2);
    cbor_write_bytes(out, challenge.request_id.as_slice());
    cbor_write_bytes(out, challenge.cookie.as_slice());
    assert(out@ =~= old(out)@ + challenge_payload(challenge@));
}

fn encode_query(out: &mut Vec<u8>, query: &DiscoveryQuery)
    ensures
        final(out)@ == old(out)@ + query_payload(query@),
{
    cbor_write_array(out, 3);
    cbor_write_bytes(out, query.request_id.as_slice());
    cbor_write_bytes(out, query.client_nonce.as_slice());
    cbor_write_bytes(out, query.cookie.as_slice());
    assert(out@ =~= old(out)@ + query_payload(query@));
}

fn encode_response(out: &mut Vec<u8>, response: &DiscoveryResponse)
    ensures
        final(out)@ == old(out)@ + response_payload(response@),
{
    let ghost start = old(out)@;
    cbor_write_array(out, 8);
    cbor_write_bytes(out, response.request_id.as_slice());
    cbor_write_str(out, response.node_id.as_str());
    cbor_write_str(out, response.quic_endpoint.as_str());
    cbor_write_bytes(out, response.authority_fingerprint.as_slice());
    cbor_write_u64(out, response.min_wire_version as u64);
    cbor_write_u64(out, response.max_wire_version as u64);
    cbor_write_array(out, response.capabilities.len() as u64);
    let ghost before_items = out@;
    let caps = &response.capabilities;
    let mut i: usize = 0;
    while i < caps.len()
        invariant
            i <= caps@.len(),
            out@ == before_items + u16_items(caps@.subrange(0, i as int)),
        decreases caps@.len() - i,
    {
        cbor_write_u64(out, caps[i] as u64);
        assert(caps@.subrange(0, i + 1).drop_last() =~= caps@.subrange(0, i as int));
        assert(out@ =~= before_items + u16_items(caps@.subrange(0, i + 1)));
        i = i + 1;
    }
    assert(caps@.subrange(0, caps@.len() as int) =~= caps@);
    cbor_write_u64(out, response.expires_at_unix_seconds);
    assert(out@ =~= start + response_payload(response@));
}

proof fn lemma_u16_items_len(caps: Seq<u16>)
    ensures
        u16_items(caps).len() <= 9 * caps.len(),
    decreases caps.len(),
{
    if caps.len() > 0 {
        lemma_u16_items_len(caps.drop_last());
        lemma_head_bounds(MAJOR_UNSIGNED, caps.last() as u64);
    }
}

/// A text that meets `text_ok(_, maximum)` takes at most `maximum + 9`
/// bytes as an item.
pub proof fn lemma_text_item_len(s: Seq<char>, maximum: int)
    requires
        text_ok(s, maximum),
    ensures
        cbor_text(s).len() <= maximum + 9,
{
    lemma_head_bounds(MAJOR_TEXT, encode_utf8(s).len() as u64);
}

/// Every valid discovery message fits one datagram.
proof fn lemma_payload_fits(m: DiscoveryMessageView)
    requires
        discovery_fault(m) is None,
        m is Probe ==> m->Probe_0.request_id.len() == 16 && m->Probe_0.client_nonce.len() == 16,
        m is Challenge ==> m->Challenge_0.request_id.len() == 16 && m->Challenge_0.cookie.len()
            == 16,
        m is Query ==> m->Query_0.request_id.len() == 16 && m->Query_0.client_nonce.len() == 16
            && m->Query_0.cookie.len() == 16,
        m is Response ==> m->Response_0.request_id.len() == 16
            && m->Response_0.authority_fingerprint.len() == 32,
    ensures
        discovery_payload(m).len() <= MAX_DISCOVERY_DATAGRAM_LEN - DISCOVERY_HEADER_LEN,
{
    lemma_head_bounds(MAJOR_ARRAY, 2);
    lemma_head_bounds(MAJOR_ARRAY, 3);
    lemma_head_bounds(MAJOR_ARRAY, 4);
    lemma_head_bounds(MAJOR_ARRAY, 8);
    lemma_head_bounds(2, 16);
    lemma_head_bounds(2, 32);
    match m {
        DiscoveryMessageView::Probe(p) => {
            lemma_head_bounds(MAJOR_UNSIGNED, p.min_wire_version as u64);
            lemma_head_bounds(MAJOR_UNSIGNED, p.max_wire_version as u64);
        },
        DiscoveryMessageView::Response(r) => {
            lemma_head_bounds(MAJOR_UNSIGNED, r.min_wire_version as u64);
            lemma_head_bounds(MAJOR_UNSIGNED, r.max_wire_version as u64);
            lemma_head_bounds(MAJOR_ARRAY, r.capabilities.len() as u64);
            lemma_head_bounds(MAJOR_UNSIGNED, r.expires_at_unix_seconds);
            lemma_u16_items_len(r.capabilities);
            lemma_text_item_len(r.node_id, MAX_NODE_ID_LEN as int);
            lemma_text_item_len(r.quic_endpoint, MAX_ENDPOINT_LEN as int);
        },
        _ => {},
    }
}

impl DiscoveryMessage {
    /// Encode the fixed V2 header and deterministic, definite-length CBOR body.
    pub fn encode(&self) -> (r: Result<Vec<u8>, WireError>)
        ensures
            match discovery_fault(self@) {
                Some(f) => r == Err::<Vec<u8>, WireError>(WireError::InvalidField(f)),
                None => r is Ok && r->Ok_0@ == discovery_frame(self@),
            },
    {
        self.validate()?;
        let mut payload: Vec<u8> = Vec::new();
        match self {
            DiscoveryMessage::Probe(probe) => encode_probe(&mut payload, probe),
            DiscoveryMessage::Challenge(challenge) => encode_challenge(&mut payload, challenge),
            DiscoveryMessage::Query(query) => encode_query(&mut payload, query),
            DiscoveryMessage::Response(response) => encode_response(&mut payload, response),
        }
        assert(payload@ =~= discovery_payload(self@));
        proof {
            lemma_payload_fits(self@);
        }
        if payload.len() > MAX_DISCOVERY_DATAGRAM_LEN - DISCOVERY_HEADER_LEN {
            return Err(
                WireError::DatagramTooLarge {
                    actual: DISCOVERY_HEADER_LEN + payload.len(),
                    maximum: MAX_DISCOVERY_DATAGRAM_LEN,
                },
            );
        }
        let payload_len = payload.len() as u16;
        let kind = self.kind().code();
        let mut frame: Vec<u8> = Vec::new();
        frame.push(0x45);
        frame.push(0x41);
        frame.push(0x42);
        frame.push(0x32);
        frame.push((DISCOVERY_WIRE_VERSION / 256) as u8);
        frame.push((DISCOVERY_WIRE_VERSION % 256) as u8);
        frame.push((kind / 256) as u8);
        frame.push((kind % 256) as u8);
        frame.push((payload_len / 256) as u8);
        frame.push((payload_len % 256) as u8);
        let ghost header = frame@;
        frame.append(&mut payload);
        assert(header =~= discovery_magic() + u16_be(DISCOVERY_WIRE_VERSION) + u16_be(kind)
            + u16_be(payload_len));
        assert(frame@ =~= discovery_frame(self@));
        Ok(frame)
    }
}

// ---------------------------------------------------------------------
// Decoding
// ---------------------------------------------------------------------

/// `n` unsigned items at `pos`, each fitting a `u16`.
pub open spec fn parse_u16_items(buf: Seq<u8>, pos: int, n: nat) -> Option<(Seq<u16>, int)>
    decreases n,
{
    if n == 0 {
        Some((Seq::empty(), pos))
    } else {
        match parse_u16_items(buf, pos, (n - 1) as nat) {
            Some((s, p)) => match parse_uint_max(buf, p, 0xffff) {
                Some((v, q)) => Some((s.push(v as u16), q)),
                None => None,
            },
            None => None,
        }
    }
}

pub open spec fn parse_probe(buf: Seq<u8>, pos: int) -> Option<(DiscoveryProbeView, int)> {
    match parse_array_n(buf, pos, 4) {
        Some(p1) => match parse_bytes_n(buf, p1, 16) {
            Some((request_id, p2)) => match parse_bytes_n(buf, p2, 16) {
                Some((client_nonce, p3)) => match parse_uint_max(buf, p3, 0xffff) {
                    Some((min, p4)) => match parse_uint_max(buf, p4, 0xffff) {
                        Some((max, p5)) => Some(
                            (
                                DiscoveryProbeView {
                                    request_id,
                                    client_nonce,
                                    min_wire_version: min as u16,
                                    max_wire_version: max as u16,
                                },
                                p5,
                            ),
                        ),
                        None => None,
                    },
                    None => None,
                },
                None => None,
            },
            None => None,
        },
        None => None,
    }
}

pub open spec fn parse_challenge(buf: Seq<u8>, pos: int) -> Option<(DiscoveryChallengeView, int)> {
    match parse_array_n(buf, pos, 2) {
        Some(p1) => match parse_bytes_n(buf, p1, 16) {
            Some((request_id, p2)) => match parse_bytes_n(buf, p2, 16) {
                Some((cookie, p3)) => Some((DiscoveryChallengeView { request_id, cookie }, p3)),
                None => None,
            },
            None => None,
        },
        None => None,
    }
}

pub open spec fn parse_query(buf: Seq<u8>, pos: int) -> Option<(DiscoveryQueryView, int)> {
    match parse_array_n(buf, pos, 3) {
        Some(p1) => match parse_bytes_n(buf, p1, 16) {
            Some((request_id, p2)) => match parse_bytes_n(buf, p2, 16) {
                Some((client_nonce, p3)) => match parse_bytes_n(buf, p3, 16) {
                    Some((cookie, p4)) => Some(
                        (DiscoveryQueryView { request_id, client_nonce, cookie }, p4),
                    ),
                    None => None,
                },
                None => None,
            },
            None => None,
        },
        None => None,
    }
}

/// The head of the capability list: at most `MAX_CAPABILITIES` items.
pub open spec fn parse_capability_count(buf: Seq<u8>, pos: int) -> Option<(u64, int)> {
    match cbor_array_at(buf, pos) {
        Some((Some(n), e)) => if n <= MAX_CAPABILITIES {
            Some((n, e))
        } else {
            None
        },
        _ => None,
    }
}

pub open spec fn parse_response(buf: Seq<u8>, pos: int) -> Option<(DiscoveryResponseView, int)> {
    match parse_array_n(buf, pos, 8) {
        Some(p1) => match parse_bytes_n(buf, p1, 16) {
            Some((request_id, p2)) => match parse_text(buf, p2, MAX_NODE_ID_LEN as int) {
                Some((node_id, p3)) => match parse_text(buf, p3, MAX_ENDPOINT_LEN as int) {
                    Some((quic_endpoint, p4)) => match parse_bytes_n(buf, p4, 32) {
                        Some((authority_fingerprint, p5)) => match parse_uint_max(buf, p5, 0xffff) {
                            Some((min, p6)) => match parse_uint_max(buf, p6, 0xffff) {
                                Some((max, p7)) => match parse_capability_count(buf, p7) {
                                    Some((n, p8)) => match parse_u16_items(buf, p8, n as nat) {
                                        Some((capabilities, p9)) => match cbor_uint_at(buf, p9) {
                                            Some((expires, p10)) => Some(
                                                (
                                                    DiscoveryResponseView {
                                                        request_id,
                                                        node_id,
                                                        quic_endpoint,
                                                        authority_fingerprint,
                                                        min_wire_version: min as u16,
                                                        max_wire_version: max as u16,
                                                        capabilities,
                                                        expires_at_unix_seconds: expires,
                                                    },
                                                    p10,
                                                ),
                                            ),
                                            None => None,
                                        },
                                        None => None,
                                    },
                                    None => None,
                                },
                                None => None,
                            },
                            None => None,
                        },
                        None => None,
                    },
                    None => None,
                },
                None => None,
            },
            None => None,
        },
        None => None,
    }
}

/// The body of a message of kind `kind`: the message and where it ends.
pub open spec fn parse_discovery_payload(kind: DiscoveryMessageKind, payload: Seq<u8>) -> Option<
    (DiscoveryMessageView, int),
> {
    match kind {
        DiscoveryMessageKind::Probe => match parse_probe(payload, 0) {
            Some((v, e)) => Some((DiscoveryMessageView::Probe(v), e)),
            None => None,
        },
        DiscoveryMessageKind::Challenge => match parse_challenge(payload, 0) {
            Some((v, e)) => Some((DiscoveryMessageView::Challenge(v), e)),
            None => None,
        },
        DiscoveryMessageKind::Query => match parse_query(payload, 0) {
            Some((v, e)) => Some((DiscoveryMessageView::Query(v), e)),
            None => None,
        },
        DiscoveryMessageKind::Response => match parse_response(payload, 0) {
            Some((v, e)) => Some((DiscoveryMessageView::Response(v), e)),
            None => None,
        },
    }
}

/// Two header bytes, most significant first.
pub open spec fn be16(b0: u8, b1: u8) -> int {
    b0 as int * 256 + b1 as int
}

/// The kind with header id `code` (meaningful for `1..=4`).
pub open spec fn discovery_kind_from_code(code: int) -> DiscoveryMessageKind {
    if code == 1 {
        DiscoveryMessageKind::Probe
    } else if code == 2 {
        DiscoveryMessageKind::Challenge
    } else if code == 3 {
        DiscoveryMessageKind::Query
    } else {
        DiscoveryMessageKind::Response
    }
}

/// The error that the header of `frame` raises, checked in order: size,
/// magic, version, kind, declared length.
pub open spec fn discovery_header_fault(frame: Seq<u8>) -> Option<WireError> {
    if frame.len() > MAX_DISCOVERY_DATAGRAM_LEN {
        Some(
            WireError::DatagramTooLarge {
                actual: frame.len() as usize,
                maximum: MAX_DISCOVERY_DATAGRAM_LEN,
            },
        )
    } else if frame.len() < DISCOVERY_HEADER_LEN {
        Some(
            WireError::TruncatedHeader {
                actual: frame.len() as usize,
                required: DISCOVERY_HEADER_LEN,
            },
        )
    } else if frame.subrange(0, 4) != discovery_magic() {
        Some(WireError::InvalidMagic)
    } else if be16(frame[4], frame[5]) != DISCOVERY_WIRE_VERSION {
        Some(WireError::UnsupportedWireVersion(be16(frame[4], frame[5]) as u16))
    } else if !(1 <= be16(frame[6], frame[7]) <= 4) {
        Some(WireError::UnknownMessageKind(be16(frame[6], frame[7]) as u16))
    } else if be16(frame[8], frame[9]) != frame.len() - DISCOVERY_HEADER_LEN {
        Some(
            WireError::LengthMismatch {
                declared: be16(frame[8], frame[9]) as usize,
                actual: (frame.len() - DISCOVERY_HEADER_LEN) as usize,
            },
        )
    } else {
        None
    }
}

/// The body of a frame whose header is sound.
pub open spec fn discovery_body(frame: Seq<u8>) -> Option<(DiscoveryMessageView, int)> {
    parse_discovery_payload(
        discovery_kind_from_code(be16(frame[6], frame[7])),
        frame.subrange(DISCOVERY_HEADER_LEN as int, frame.len() as int),
    )
}

/// The message that a datagram holds, if it decodes.
pub open spec fn discovery_decoded(frame: Seq<u8>) -> Option<DiscoveryMessageView> {
    if discovery_header_fault(frame) is Some {
        None
    } else {
        match discovery_body(frame) {
            Some((m, end)) => if end == frame.len() - DISCOVERY_HEADER_LEN && discovery_fault(
                m,
            ) is None {
                Some(m)
            } else {
                None
            },
            None => None,
        }
    }
}

/// Once one item fails, every longer run of items fails too.
proof fn lemma_u16_items_fail(buf: Seq<u8>, pos: int, i: nat, n: nat, s: Seq<u16>, p: int)
    requires
        i < n,
        parse_u16_items(buf, pos, i) == Some((s, p)),
        parse_uint_max(buf, p, 0xffff) is None,
    ensures
        parse_u16_items(buf, pos, n) is None,
    decreases n,
{
    if n > i + 1 {
        lemma_u16_items_fail(buf, pos, i, (n - 1) as nat, s, p);
    }
}

fn decode_probe(input: &[u8], pos: usize) -> (r: Result<(DiscoveryProbe, usize), WireError>)
    ensures
        match r {
            Ok((m, e)) => parse_probe(input@, pos as int) == Some((m@, e as int)) && e
                <= input@.len(),
            Err(_) => parse_probe(input@, pos as int) is None,
        },
{
    let p1 = expect_array(input, pos, "probe", 4)?;
    let (request_id, p2) = read_bytes16(input, p1, "request_id")?;
    let (client_nonce, p3) = read_bytes16(input, p2, "client_nonce")?;
    let (min_wire_version, p4) = read_u16(input, p3)?;
    let (max_wire_version, p5) = read_u16(input, p4)?;
    Ok((DiscoveryProbe { request_id, client_nonce, min_wire_version, max_wire_version }, p5))
}

fn decode_challenge(input: &[u8], pos: usize) -> (r: Result<(DiscoveryChallenge, usize), WireError>)
    ensures
        match r {
            Ok((m, e)) => parse_challenge(input@, pos as int) == Some((m@, e as int)) && e
                <= input@.len(),
            Err(_) => parse_challenge(input@, pos as int) is None,
        },
{
    let p1 = expect_array(input, pos, "challenge", 2)?;
    let (request_id, p2) = read_bytes16(input, p1, "request_id")?;
    let (cookie, p3) = read_bytes16(input, p2, "cookie")?;
    Ok((DiscoveryChallenge { request_id, cookie }, p3))
}

fn decode_query(input: &[u8], pos: usize) -> (r: Result<(DiscoveryQuery, usize), WireError>)
    ensures
        match r {
            Ok((m, e)) => parse_query(input@, pos as int) == Some((m@, e as int)) && e
                <= input@.len(),
            Err(_) => parse_query(input@, pos as int) is None,
        },
{
    let p1 = expect_array(input, pos, "query", 3)?;
    let (request_id, p2) = read_bytes16(input, p1, "request_id")?;
    let (client_nonce, p3) = read_bytes16(input, p2, "client_nonce")?;
    let (cookie, p4) = read_bytes16(input, p3, "cookie")?;
    Ok((DiscoveryQuery { request_id, client_nonce, cookie }, p4))
}

#[verifier::loop_isolation(false)]
fn decode_response(input: &[u8], pos: usize) -> (r: Result<(DiscoveryResponse, usize), WireError>)
    ensures
        match r {
            Ok((m, e)) => parse_response(input@, pos as int) == Some((m@, e as int)) && e
                <= input@.len(),
            Err(_) => parse_response(input@, pos as int) is None,
        },
{
    let p1 = expect_array(input, pos, "response", 8)?;
    let (request_id, p2) = read_bytes16(input, p1, "request_id")?;
    let (node_id, p3) = read_text(input, p2, MAX_NODE_ID_LEN, "node_id")?;
    let (quic_endpoint, p4) = read_text(input, p3, MAX_ENDPOINT_LEN, "quic_endpoint")?;
    let (authority_fingerprint, p5) = read_bytes32(input, p4, "authority_fingerprint")?;
    let (min_wire_version, p6) = read_u16(input, p5)?;
    let (max_wire_version, p7) = read_u16(input, p6)?;
    let (count, p8) = match cbor_read_array(input, p7) {
        Ok((None, _)) => {
            return Err(WireError::IndefiniteLength("capabilities"));
        },
        Ok((Some(n), end)) => (n, end),
        Err(message) => {
            return Err(WireError::CborDecode(message));
        },
    };
    if count > MAX_CAPABILITIES as u64 {
        return Err(WireError::InvalidField("capabilities exceeds maximum"));
    }
    let mut capabilities: Vec<u16> = Vec::new();
    let mut p = p8;
    let mut i: u64 = 0;
    while i < count
        invariant
            i <= count <= MAX_CAPABILITIES,
            p <= input@.len(),
            parse_u16_items(input@, p8 as int, i as nat) == Some((capabilities@, p as int)),
        decreases count - i,
    {
        let (v, q) = match read_u16(input, p) {
            Ok(x) => x,
            Err(e) => {
                proof {
                    lemma_u16_items_fail(input@, p8 as int, i as nat, count as nat, capabilities@, p as int);
                }
                return Err(e);
            },
        };
        capabilities.push(v);
        p = q;
        i = i + 1;
    }
    let (expires_at_unix_seconds, p9) = read_u64(input, p)?;
    let response = DiscoveryResponse {
        request_id,
        node_id,
        quic_endpoint,
        authority_fingerprint,
        min_wire_version,
        max_wire_version,
        capabilities,
        expires_at_unix_seconds,
    };
    Ok((response, p9))
}

impl DiscoveryMessage {
    /// Decode one complete discovery datagram after enforcing its outer bound.
    pub fn decode(frame: &[u8]) -> (r: Result<DiscoveryMessage, WireError>)
        ensures
            r is Ok <==> discovery_decoded(frame@) is Some,
            r is Ok ==> discovery_decoded(frame@) == Some(r->Ok_0@),
            discovery_header_fault(frame@) is Some ==> r == Err::<DiscoveryMessage, WireError>(
                discovery_header_fault(frame@)->0,
            ),
            discovery_header_fault(frame@) is None ==> match discovery_body(frame@) {
                Some((m, end)) => if end != frame@.len() - DISCOVERY_HEADER_LEN {
                    r == Err::<DiscoveryMessage, WireError>(
                        WireError::TrailingPayloadBytes(
                            (frame@.len() - DISCOVERY_HEADER_LEN - end) as usize,
                        ),
                    )
                } else {
                    match discovery_fault(m) {
                        Some(f) => r == Err::<DiscoveryMessage, WireError>(
                            WireError::InvalidField(f),
                        ),
                        None => true,
                    }
                },
                None => true,
            },
    {
        if frame.len() > MAX_DISCOVERY_DATAGRAM_LEN {
            return Err(
                WireError::DatagramTooLarge {
                    actual: frame.len(),
                    maximum: MAX_DISCOVERY_DATAGRAM_LEN,
                },
            );
        }
        if frame.len() < DISCOVERY_HEADER_LEN {
            return Err(
                WireError::TruncatedHeader { actual: frame.len(), required: DISCOVERY_HEADER_LEN },
            );
        }
        if frame[0] != 0x45 || frame[1] != 0x41 || frame[2] != 0x42 || frame[3] != 0x32 {
            assert(frame@.subrange(0, 4) != discovery_magic()) by {
                if frame@.subrange(0, 4) == discovery_magic() {
                    assert(frame@.subrange(0, 4)[0] == frame@[0]);
                    assert(frame@.subrange(0, 4)[1] == frame@[1]);
                    assert(frame@.subrange(0, 4)[2] == frame@[2]);
                    assert(frame@.subrange(0, 4)[3] == frame@[3]);
                }
            }
            return Err(WireError::InvalidMagic);
        }
        assert(frame@.subrange(0, 4) =~= discovery_magic());
        let version = (frame[4] as u16) * 256 + frame[5] as u16;
        if version != DISCOVERY_WIRE_VERSION {
            return Err(WireError::UnsupportedWireVersion(version));
        }
        let kind = DiscoveryMessageKind::from_code((frame[6] as u16) * 256 + frame[7] as u16)?;
        let declared = ((frame[8] as u16) * 256 + frame[9] as u16) as usize;
        let actual = frame.len() - DISCOVERY_HEADER_LEN;
        if declared != actual {
            return Err(WireError::LengthMismatch { declared, actual });
        }
        let payload = &frame[DISCOVERY_HEADER_LEN..frame.len()];
        assert(kind == discovery_kind_from_code(be16(frame@[6], frame@[7])));
        let (message, end) = match kind {
            DiscoveryMessageKind::Probe => {
                let (m, e) = decode_probe(payload, 0)?;
                (DiscoveryMessage::Probe(m), e)
            },
            DiscoveryMessageKind::Challenge => {
                let (m, e) = decode_challenge(payload, 0)?;
                (DiscoveryMessage::Challenge(m), e)
            },
            DiscoveryMessageKind::Query => {
                let (m, e) = decode_query(payload, 0)?;
                (DiscoveryMessage::Query(m), e)
            },
            DiscoveryMessageKind::Response => {
                let (m, e) = decode_response(payload, 0)?;
                (DiscoveryMessage::Response(m), e)
            },
        };
        if end != payload.len() {
            return Err(WireError::TrailingPayloadBytes(payload.len() - end));
        }
        message.validate()?;
        Ok(message)
    }
}


// ---------------------------------------------------------------------
// What the encoder writes, the decoder reads back.
// ---------------------------------------------------------------------

proof fn lemma_parse_u16_items(buf: Seq<u8>, pos: int, caps: Seq<u16>)
    requires
        placed(buf, pos, u16_items(caps)),
    ensures
        parse_u16_items(buf, pos, caps.len()) == Some((caps, pos + u16_items(caps).len())),
    decreases caps.len(),
{
    if caps.len() > 0 {
        let front = caps.drop_last();
        let item = cbor_head(MAJOR_UNSIGNED, caps.last() as u64);
        lemma_placed_split(buf, pos, u16_items(front), item);
        lemma_parse_u16_items(buf, pos, front);
        lemma_parse_uint(buf, pos + u16_items(front).len(), caps.last() as u64, 0xffff);
        assert(front.push(caps.last()) =~= caps);
        assert(front.len() == (caps.len() - 1) as nat);
    }
}

proof fn lemma_parse_probe(buf: Seq<u8>, pos: int, p: DiscoveryProbeView)
    requires
        placed(buf, pos, probe_payload(p)),
        p.request_id.len() == 16,
        p.client_nonce.len() == 16,
    ensures
        parse_probe(buf, pos) == Some((p, pos + probe_payload(p).len())),
{
    let a = cbor_head(MAJOR_ARRAY, 4);
    let b = cbor_bytes(p.request_id);
    let c = cbor_bytes(p.client_nonce);
    let d = cbor_head(MAJOR_UNSIGNED, p.min_wire_version as u64);
    let e = cbor_head(MAJOR_UNSIGNED, p.max_wire_version as u64);
    lemma_placed_split(buf, pos, a + b + c + d, e);
    lemma_placed_split(buf, pos, a + b + c, d);
    lemma_placed_split(buf, pos, a + b, c);
    lemma_placed_split(buf, pos, a, b);
    lemma_parse_array(buf, pos, 4);
    lemma_parse_bytes(buf, pos + a.len(), p.request_id);
    lemma_parse_bytes(buf, pos + a.len() + b.len(), p.client_nonce);
    lemma_parse_uint(buf, pos + a.len() + b.len() + c.len(), p.min_wire_version as u64, 0xffff);
    lemma_parse_uint(
        buf,
        pos + a.len() + b.len() + c.len() + d.len(),
        p.max_wire_version as u64,
        0xffff,
    );
}

proof fn lemma_parse_challenge(buf: Seq<u8>, pos: int, c: DiscoveryChallengeView)
    requires
        placed(buf, pos, challenge_payload(c)),
        c.request_id.len() == 16,
        c.cookie.len() == 16,
    ensures
        parse_challenge(buf, pos) == Some((c, pos + challenge_payload(c).len())),
{
    let a = cbor_head(MAJOR_ARRAY, 2);
    let b = cbor_bytes(c.request_id);
    let d = cbor_bytes(c.cookie);
    lemma_placed_split(buf, pos, a + b, d);
    lemma_placed_split(buf, pos, a, b);
    lemma_parse_array(buf, pos, 2);
    lemma_parse_bytes(buf, pos + a.len(), c.request_id);
    lemma_parse_bytes(buf, pos + a.len() + b.len(), c.cookie);
}

proof fn lemma_parse_query(buf: Seq<u8>, pos: int, q: DiscoveryQueryView)
    requires
        placed(buf, pos, query_payload(q)),
        q.request_id.len() == 16,
        q.client_nonce.len() == 16,
        q.cookie.len() == 16,
    ensures
        parse_query(buf, pos) == Some((q, pos + query_payload(q).len())),
{
    let a = cbor_head(MAJOR_ARRAY, 3);
    let b = cbor_bytes(q.request_id);
    let c = cbor_bytes(q.client_nonce);
    let d = cbor_bytes(q.cookie);
    lemma_placed_split(buf, pos, a + b + c, d);
    lemma_placed_split(buf, pos, a + b, c);
    lemma_placed_split(buf, pos, a, b);
    lemma_parse_array(buf, pos, 3);
    lemma_parse_bytes(buf, pos + a.len(), q.request_id);
    lemma_parse_bytes(buf, pos + a.len() + b.len(), q.client_nonce);
    lemma_parse_bytes(buf, pos + a.len() + b.len() + c.len(), q.cookie);
}

proof fn lemma_parse_response(buf: Seq<u8>, pos: int, r: DiscoveryResponseView)
    requires
        placed(buf, pos, response_payload(r)),
        r.request_id.len() == 16,
        r.authority_fingerprint.len() == 32,
        response_fault(r) is None,
    ensures
        parse_response(buf, pos) == Some((r, pos + response_payload(r).len())),
{
    let a = cbor_head(MAJOR_ARRAY, 8);
    let b = cbor_bytes(r.request_id);
    let c = cbor_text(r.node_id);
    let d = cbor_text(r.quic_endpoint);
    let e = cbor_bytes(r.authority_fingerprint);
    let f = cbor_head(MAJOR_UNSIGNED, r.min_wire_version as u64);
    let g = cbor_head(MAJOR_UNSIGNED, r.max_wire_version as u64);
    let h = cbor_head(MAJOR_ARRAY, r.capabilities.len() as u64);
    let i = u16_items(r.capabilities);
    let j = cbor_head(MAJOR_UNSIGNED, r.expires_at_unix_seconds);
    lemma_placed_split(buf, pos, a + b + c + d + e + f + g + h + i, j);
    lemma_placed_split(buf, pos, a + b + c + d + e + f + g + h, i);
    lemma_placed_split(buf, pos, a + b + c + d + e + f + g, h);
    lemma_placed_split(buf, pos, a + b + c + d + e + f, g);
    lemma_placed_split(buf, pos, a + b + c + d + e, f);
    lemma_placed_split(buf, pos, a + b + c + d, e);
    lemma_placed_split(buf, pos, a + b + c, d);
    lemma_placed_split(buf, pos, a + b, c);
    lemma_placed_split(buf, pos, a, b);
    let p1 = pos + a.len();
    let p2 = p1 + b.len();
    let p3 = p2 + c.len();
    let p4 = p3 + d.len();
    let p5 = p4 + e.len();
    let p6 = p5 + f.len();
    let p7 = p6 + g.len();
    let p8 = p7 + h.len();
    let p9 = p8 + i.len();
    lemma_parse_array(buf, pos, 8);
    lemma_parse_bytes(buf, p1, r.request_id);
    lemma_parse_text(buf, p2, r.node_id, MAX_NODE_ID_LEN as int);
    lemma_parse_text(buf, p3, r.quic_endpoint, MAX_ENDPOINT_LEN as int);
    lemma_parse_bytes(buf, p4, r.authority_fingerprint);
    lemma_parse_uint(buf, p5, r.min_wire_version as u64, 0xffff);
    lemma_parse_uint(buf, p6, r.max_wire_version as u64, 0xffff);
    lemma_parse_array(buf, p7, r.capabilities.len() as u64);
    assert(parse_capability_count(buf, p7) == Some((r.capabilities.len() as u64, p8)));
    lemma_parse_u16_items(buf, p8, r.capabilities);
    lemma_parse_uint(buf, p9, r.expires_at_unix_seconds, 0xffff_ffff_ffff_ffff);
}

/// Whether the byte fields of a message view have the sizes of the message
/// types (always so of the view of a `DiscoveryMessage`).
pub open spec fn discovery_sized(m: DiscoveryMessageView) -> bool {
    match m {
        DiscoveryMessageView::Probe(p) => p.request_id.len() == 16 && p.client_nonce.len() == 16,
        DiscoveryMessageView::Challenge(c) => c.request_id.len() == 16 && c.cookie.len() == 16,
        DiscoveryMessageView::Query(q) => q.request_id.len() == 16 && q.client_nonce.len() == 16
            && q.cookie.len() == 16,
        DiscoveryMessageView::Response(r) => r.request_id.len() == 16
            && r.authority_fingerprint.len() == 32,
    }
}

/// The header of an encoded frame is sound and the body is the payload.
proof fn lemma_frame_header(v: DiscoveryMessageView)
    requires
        discovery_fault(v) is None,
        discovery_sized(v),
    ensures
        discovery_header_fault(discovery_frame(v)) is None,
        discovery_frame(v).subrange(DISCOVERY_HEADER_LEN as int, discovery_frame(v).len() as int)
            == discovery_payload(v),
        discovery_kind_from_code(be16(discovery_frame(v)[6], discovery_frame(v)[7]))
            == discovery_kind_of(v),
{
    lemma_payload_fits(v);
    let payload = discovery_payload(v);
    let frame = discovery_frame(v);
    let header = discovery_magic() + u16_be(DISCOVERY_WIRE_VERSION) + u16_be(
        discovery_kind_of(v).code_of(),
    ) + u16_be(payload.len() as u16);
    assert(frame == header + payload);
    assert(header.len() == 10);
    assert(frame.subrange(0, 4) =~= discovery_magic());
    assert(frame[4] == header[4] && frame[5] == header[5]);
    assert(frame[6] == header[6] && frame[7] == header[7]);
    assert(frame[8] == header[8] && frame[9] == header[9]);
    assert(be16(frame[8], frame[9]) == payload.len());
    assert(frame.subrange(DISCOVERY_HEADER_LEN as int, frame.len() as int) =~= payload);
}

/// The payload of a valid message parses back to it, to its last byte.
proof fn lemma_payload_parses(v: DiscoveryMessageView)
    requires
        discovery_fault(v) is None,
        discovery_sized(v),
    ensures
        parse_discovery_payload(discovery_kind_of(v), discovery_payload(v)) == Some(
            (v, discovery_payload(v).len() as int),
        ),
{
    let payload = discovery_payload(v);
    assert(placed(payload, 0, payload)) by {
        assert(payload.subrange(0, payload.len() as int) =~= payload);
    }
    match v {
        DiscoveryMessageView::Probe(p) => lemma_parse_probe(payload, 0, p),
        DiscoveryMessageView::Challenge(c) => lemma_parse_challenge(payload, 0, c),
        DiscoveryMessageView::Query(q) => lemma_parse_query(payload, 0, q),
        DiscoveryMessageView::Response(r) => lemma_parse_response(payload, 0, r),
    }
}

/// Decoding the datagram that `encode` produces for a valid message gives
/// that message back.
pub proof fn lemma_discovery_roundtrip(m: DiscoveryMessage)
    requires
        discovery_fault(m@) is None,
    ensures
        discovery_decoded(discovery_frame(m@)) == Some(m@),
{
    let v = m@;
    assert(discovery_sized(v));
    lemma_frame_header(v);
    lemma_payload_parses(v);
    lemma_payload_fits(v);
}


/// The text shown for an error.
pub open spec fn wire_error_text(e: WireError) -> Seq<char> {
    match e {
        WireError::DatagramTooLarge { actual, maximum } => "discovery datagram is "@ + decimal_text(
            actual as nat,
        ) + " bytes; maximum is "@ + decimal_text(maximum as nat),
        WireError::FrameTooLarge { actual, maximum } => "secure frame is "@ + decimal_text(
            actual as nat,
        ) + " bytes; maximum is "@ + decimal_text(maximum as nat),
        WireError::TruncatedHeader { actual, required } => "discovery header is truncated: got "@
            + decimal_text(actual as nat) + " bytes; need "@ + decimal_text(required as nat),
        WireError::InvalidMagic => "invalid EAB discovery magic"@,
        WireError::UnsupportedWireVersion(v) => "unsupported EAB discovery wire version "@
            + decimal_text(v as nat),
        WireError::UnknownMessageKind(k) => "unknown EAB discovery message kind "@ + decimal_text(
            k as nat,
        ),
        WireError::LengthMismatch { declared, actual } => "discovery payload length mismatch: header says "@
            + decimal_text(declared as nat) + "; datagram has "@ + decimal_text(actual as nat),
        WireError::InvalidField(f) => "invalid discovery field: "@ + f@,
        WireError::IndefiniteLength(f) => "indefinite-length CBOR is not allowed for "@ + f@,
        WireError::UnexpectedArrayLength { field, expected, actual } => "unexpected CBOR array length for "@
            + field@ + ": expected "@ + decimal_text(expected as nat) + ", got "@ + decimal_text(
            actual as nat,
        ),
        WireError::TrailingPayloadBytes(n) => "discovery payload has "@ + decimal_text(n as nat)
            + " trailing bytes"@,
        WireError::CborEncode(m) => "CBOR encode failed: "@ + m@,
        WireError::CborDecode(m) => "CBOR decode failed: "@ + m@,
    }
}

impl WireError {
    /// The text shown for the error.
    pub fn message(&self) -> (r: String)
        ensures
            r@ == wire_error_text(*self),
    {
        let mut s = String::new();
        match self {
            WireError::DatagramTooLarge { actual, maximum } => {
                s.append("discovery datagram is ");
                push_decimal(&mut s, *actual as u64);
                s.append(" bytes; maximum is ");
                push_decimal(&mut s, *maximum as u64);
            },
            WireError::FrameTooLarge { actual, maximum } => {
                s.append("secure frame is ");
                push_decimal(&mut s, *actual as u64);
                s.append(" bytes; maximum is ");
                push_decimal(&mut s, *maximum as u64);
            },
            WireError::TruncatedHeader { actual, required } => {
                s.append("discovery header is truncated: got ");
                push_decimal(&mut s, *actual as u64);
                s.append(" bytes; need ");
                push_decimal(&mut s, *required as u64);
            },
            WireError::InvalidMagic => {
                s.append("invalid EAB discovery magic");
            },
            WireError::UnsupportedWireVersion(v) => {
                s.append("unsupported EAB discovery wire version ");
                push_decimal(&mut s, *v as u64);
            },
            WireError::UnknownMessageKind(k) => {
                s.append("unknown EAB discovery message kind ");
                push_decimal(&mut s, *k as u64);
            },
            WireError::LengthMismatch { declared, actual } => {
                s.append("discovery payload length mismatch: header says ");
                push_decimal(&mut s, *declared as u64);
                s.append("; datagram has ");
                push_decimal(&mut s, *actual as u64);
            },
            WireError::InvalidField(f) => {
                s.append("invalid discovery field: ");
                s.append(f);
            },
            WireError::IndefiniteLength(f) => {
                s.append("indefinite-length CBOR is not allowed for ");
                s.append(f);
            },
            WireError::UnexpectedArrayLength { field, expected, actual } => {
                s.append("unexpected CBOR array length for ");
                s.append(field);
                s.append(": expected ");
                push_decimal(&mut s, *expected);
                s.append(", got ");
                push_decimal(&mut s, *actual);
            },
            WireError::TrailingPayloadBytes(n) => {
                s.append("discovery payload has ");
                push_decimal(&mut s, *n as u64);
                s.append(" trailing bytes");
            },
            WireError::CborEncode(m) => {
                s.append("CBOR encode failed: ");
                s.append(m.as_str());
            },
            WireError::CborDecode(m) => {
                s.append("CBOR decode failed: ");
                s.append(m.as_str());
            },
        }
        assert(s@ =~= wire_error_text(*self));
        s
    }
}

} // verus!
