//! The checks around a certificate-pinned QUIC exchange with an authority:
//! what a client refuses before any byte is sent, what an authority
//! answers, and what a client accepts back. Sockets, TLS and the async
//! runtime are the caller's.

use vstd::prelude::*;
use crate::network::NetAddr;
use crate::node::constant_time_equal;
use crate::secure::{secure_decoded, secure_fault, secure_frame, secure_request_id_of, SecureMessage};
use crate::digest::{sha256, sha256_of};
use crate::wire::{all_zero, nonzero, wire_error_text, WireError};

verus! {

/// The server name a client expects in the authority's certificate.
pub const AUTHORITY_SERVER_NAME: &'static str = "eab-authority";
/// The ALPN protocol of EAB over QUIC.
pub const EAB_QUIC_ALPN: &'static str = "eab/2";
/// The largest request of the echo exchange.
pub const MAX_SPIKE_REQUEST_LEN: usize = 4096;
/// The largest answer of the echo exchange.
pub const MAX_SPIKE_RESPONSE_LEN: usize = 4160;

/// What the echo exchange puts before the request it returns:
/// `EAB-QUIC-SPIKE-ACK` and a zero byte.
pub open spec fn ack_prefix() -> Seq<u8> {
    seq![
        0x45u8, 0x41, 0x42, 0x2d, 0x51, 0x55, 0x49, 0x43, 0x2d, 0x53, 0x50, 0x49, 0x4b, 0x45, 0x2d,
        0x41, 0x43, 0x4b, 0x00,
    ]
}

/// The pin of a certificate: SHA-256 of its DER bytes.
pub fn certificate_fingerprint(certificate_der: &[u8]) -> (r: [u8; 32])
    ensures
        r@ == sha256_of(certificate_der@),
{
    sha256(certificate_der)
}

/// Whether a presented certificate is the pinned one.
pub fn certificate_matches_pin(certificate_der: &[u8], expected_fingerprint: &[u8; 32]) -> (r: bool)
    ensures
        r == (sha256_of(certificate_der@) == expected_fingerprint@),
{
    let fingerprint = certificate_fingerprint(certificate_der);
    constant_time_equal(&fingerprint, expected_fingerprint)
}

/// Why a pinned QUIC exchange failed.
#[derive(Debug)]
pub enum QuicClientError {
    EmptyTrust,
    Wire(String),
    Timeout,
    Transport(String),
    Correlation,
}

impl QuicClientError {
    /// The text shown for the error.
    pub fn message(&self) -> (r: String)
        ensures
            r@ == match self {
                QuicClientError::EmptyTrust => "authority certificate pin must be non-zero"@,
                QuicClientError::Wire(m) => "invalid EAB secure message: "@ + m@,
                QuicClientError::Timeout => "QUIC secure message timed out"@,
                QuicClientError::Transport(m) => "QUIC transport failed: "@ + m@,
                QuicClientError::Correlation => "EAB secure response request_id mismatch"@,
            },
    {
        match self {
            QuicClientError::EmptyTrust => String::from_str("authority certificate pin must be non-zero"),
            QuicClientError::Wire(m) => {
                let mut s = String::from_str("invalid EAB secure message: ");
                s.append(m.as_str());
                s
            },
            QuicClientError::Timeout => String::from_str("QUIC secure message timed out"),
            QuicClientError::Transport(m) => {
                let mut s = String::from_str("QUIC transport failed: ");
                s.append(m.as_str());
                s
            },
            QuicClientError::Correlation => String::from_str("EAB secure response request_id mismatch"),
        }
    }
}

/// A client of one authority, trusting only the certificate with the
/// pinned SHA-256 fingerprint.
#[derive(Clone, Debug)]
pub struct PinnedQuicClient {
    target: NetAddr,
    authority_certificate_fingerprint: [u8; 32],
}

impl PinnedQuicClient {
    pub closed spec fn target_spec(&self) -> NetAddr {
        self.target
    }

    pub closed spec fn pin_spec(&self) -> Seq<u8> {
        self.authority_certificate_fingerprint@
    }

    /// A client of the authority at `target`; refused for an all-zero pin.
    pub fn new(target: NetAddr, authority_certificate_fingerprint: [u8; 32]) -> (r: Result<Self, QuicClientError>)
        ensures
            !nonzero(authority_certificate_fingerprint@) ==> r matches Err(QuicClientError::EmptyTrust),
            nonzero(authority_certificate_fingerprint@) ==> (r matches Ok(c) && c.target_spec() == target
                && c.pin_spec() == authority_certificate_fingerprint@),
    {
        if all_zero(authority_certificate_fingerprint.as_slice()) {
            return Err(QuicClientError::EmptyTrust);
        }
        Ok(PinnedQuicClient { target, authority_certificate_fingerprint })
    }

    pub fn target(&self) -> (r: NetAddr)
        ensures
            r == self.target_spec(),
    {
        self.target
    }

    /// The fingerprint the authority's certificate must have.
    pub fn authority_certificate_fingerprint(&self) -> (r: [u8; 32])
        ensures
            r@ == self.pin_spec(),
    {
        self.authority_certificate_fingerprint
    }

    /// The frame to send for `request`, with the request id its answer
    /// must carry; refused where the request does not validate.
    pub fn prepare_round_trip(&self, request: &SecureMessage) -> (r: Result<([u8; 16], Vec<u8>), QuicClientError>)
        ensures
            match secure_fault(request@) {
                Some(f) => r matches Err(QuicClientError::Wire(m)) && m@ == wire_error_text(
                    WireError::InvalidField(f),
                ),
                None => r matches Ok((id, frame)) && id@ == secure_request_id_of(request@) && frame@
                    == secure_frame(request@),
            },
    {
        let request_id = request.request_id();
        match request.encode() {
            Ok(frame) => Ok((request_id, frame)),
            Err(error) => Err(QuicClientError::Wire(error.message())),
        }
    }

    /// The answer to a request with `request_id`: the decoded frame, if it
    /// decodes and carries that request id.
    pub fn finish_round_trip(request_id: [u8; 16], response: &[u8]) -> (r: Result<SecureMessage, QuicClientError>)
        ensures
            match secure_decoded(response@) {
                None => r matches Err(QuicClientError::Wire(_)),
                Some(m) => if secure_request_id_of(m) == request_id@ {
                    r matches Ok(answer) && answer@ == m
                } else {
                    r matches Err(QuicClientError::Correlation)
                },
            },
    {
        let answer = match SecureMessage::decode(response) {
            Ok(m) => m,
            Err(error) => {
                return Err(QuicClientError::Wire(error.message()));
            },
        };
        let answered = answer.request_id();
        if !constant_time_equal(&answered, &request_id) {
            return Err(QuicClientError::Correlation);
        }
        Ok(answer)
    }
}

/// Refuses an echo exchange before any network I/O: an all-zero pin, or a
/// request over `MAX_SPIKE_REQUEST_LEN` bytes.
pub fn check_spike_request(expected_certificate_fingerprint: &[u8; 32], request: &[u8]) -> (r: Result<(), String>)
    ensures
        !nonzero(expected_certificate_fingerprint@) ==> (r matches Err(m) && m@
            == "QUIC authority certificate pin must be non-zero"@),
        nonzero(expected_certificate_fingerprint@) && request@.len() > MAX_SPIKE_REQUEST_LEN ==> (r matches Err(
            m,
        ) && m@ == "QUIC spike request exceeds 4096 bytes"@),
        nonzero(expected_certificate_fingerprint@) && request@.len() <= MAX_SPIKE_REQUEST_LEN ==> r is Ok,
{
    if all_zero(expected_certificate_fingerprint.as_slice()) {
        return Err(String::from_str("QUIC authority certificate pin must be non-zero"));
    }
    if request.len() > MAX_SPIKE_REQUEST_LEN {
        return Err(String::from_str("QUIC spike request exceeds 4096 bytes"));
    }
    Ok(())
}

/// The echo exchange's answer: the acknowledgement prefix, then the request.
pub fn spike_acknowledgement(request: &[u8]) -> (r: Vec<u8>)
    ensures
        r@ == ack_prefix() + request@,
{
    let mut out: Vec<u8> = vec![
        0x45u8, 0x41, 0x42, 0x2d, 0x51, 0x55, 0x49, 0x43, 0x2d, 0x53, 0x50, 0x49, 0x4b, 0x45, 0x2d,
        0x41, 0x43, 0x4b, 0x00,
    ];
    assert(out@ =~= ack_prefix());
    let mut i: usize = 0;
    while i < request.len()
        invariant
            i <= request@.len(),
            out@ == ack_prefix() + request@.subrange(0, i as int),
        decreases request@.len() - i,
    {
        out.push(request[i]);
        i = i + 1;
        assert(out@ =~= ack_prefix() + request@.subrange(0, i as int));
    }
    assert(request@.subrange(0, request@.len() as int) =~= request@);
    out
}

/// Refuses a secure request before any network I/O, else gives its frame
/// and the request id its answer must carry.
pub fn secure_message_request(expected_certificate_fingerprint: &[u8; 32], request: &SecureMessage) -> (r: Result<
    ([u8; 16], Vec<u8>),
    String,
>)
    ensures
        !nonzero(expected_certificate_fingerprint@) ==> (r matches Err(m) && m@
            == "QUIC authority certificate pin must be non-zero"@),
        nonzero(expected_certificate_fingerprint@) ==> match secure_fault(request@) {
            Some(_) => r matches Err(m) && m@ == "invalid EAB secure request message"@,
            None => r matches Ok((id, frame)) && id@ == secure_request_id_of(request@) && frame@
                == secure_frame(request@),
        },
{
    if all_zero(expected_certificate_fingerprint.as_slice()) {
        return Err(String::from_str("QUIC authority certificate pin must be non-zero"));
    }
    let request_id = request.request_id();
    match request.encode() {
        Ok(frame) => Ok((request_id, frame)),
        Err(_) => Err(String::from_str("invalid EAB secure request message")),
    }
}

/// The answer to a secure request with `request_id`, if the frame decodes
/// and carries that request id.
pub fn secure_message_response(request_id: [u8; 16], frame: &[u8]) -> (r: Result<SecureMessage, String>)
    ensures
        match secure_decoded(frame@) {
            None => r matches Err(m) && m@ == "invalid EAB secure response frame"@,
            Some(m) => if secure_request_id_of(m) == request_id@ {
                r matches Ok(answer) && answer@ == m
            } else {
                r matches Err(e) && e@ == "EAB secure response request_id mismatch"@
            },
        },
{
    let answer = match SecureMessage::decode(frame) {
        Ok(m) => m,
        Err(_) => {
            return Err(String::from_str("invalid EAB secure response frame"));
        },
    };
    if !constant_time_equal(&answer.request_id(), &request_id) {
        return Err(String::from_str("EAB secure response request_id mismatch"));
    }
    Ok(answer)
}

/// What an authority does with decoded secure requests.
pub trait SecureRequestHandler {
    fn handle(&self, request: SecureMessage) -> SecureMessage;
}

/// An authority's answer to one received frame: the handler's response,
/// encoded; refused where the frame does not decode or the response does
/// not encode.
pub fn answer_secure_frame<H: SecureRequestHandler>(handler: &H, frame: &[u8]) -> (r: Result<Vec<u8>, String>)
    ensures
        secure_decoded(frame@) is None ==> (r matches Err(m) && m@ == "invalid EAB secure request frame"@),
        r is Ok ==> secure_decoded(frame@) is Some && exists|answer: crate::secure::SecureMessageView|
            secure_fault(answer) is None && secure_frame(answer) == r->Ok_0@,
        secure_decoded(frame@) is Some ==> (r is Ok || (r matches Err(m) && m@
            == "failed to encode EAB secure response frame"@)),
{
    let request = match SecureMessage::decode(frame) {
        Ok(m) => m,
        Err(_) => {
            return Err(String::from_str("invalid EAB secure request frame"));
        },
    };
    let response = handler.handle(request);
    match response.encode() {
        Ok(bytes) => Ok(bytes),
        Err(_) => Err(String::from_str("failed to encode EAB secure response frame")),
    }
}

} // verus!
