//! Secure claim messages carried inside authenticated QUIC streams.
//!
//! A frame is a fixed twelve-byte header (magic `EABS`, wire version,
//! message kind, 32-bit payload length) followed by a deterministic,
//! definite-length CBOR body.

use vstd::prelude::*;
use vstd::utf8::*;
use crate::codec::{
    lemma_head_first_byte, lemma_parse_array, lemma_parse_bytes, lemma_parse_text,
    lemma_parse_text_allow_controls, lemma_parse_uint, lemma_starts_with_split, placed, starts_with,
    expect_array, read_bytes16, read_text, read_text_allow_controls, read_u16, read_u32,
    read_u64, read_u8, lemma_head_bounds, parse_array_n, parse_bytes_n, parse_text, parse_text_allow_controls,
    parse_uint_max,
};
use crate::cbor::{
    cbor_bytes, cbor_head, cbor_read_bool, cbor_read_null, cbor_uint_at, cbor_text, cbor_write_array, cbor_write_bool,
    cbor_write_bytes, cbor_write_null, cbor_write_str, cbor_write_u64, CBOR_NULL, MAJOR_ARRAY, MAJOR_BYTES, MAJOR_TEXT,
    MAJOR_UNSIGNED,
};
use crate::claim::{
    award_view, EabAwardReference, EabAwardReferenceView, EabClaimAcknowledgement,
    EabClaimAcknowledgementView, EabClaimDecisionCode, EabClaimDisposition, EabClaimEnvelope,
    EabClaimEnvelopeView,
};
use crate::offline::{OfflineAchievementRecord, OfflineAchievementRecordView, OfflineClaimReadiness};
use crate::text::opt_view;
use crate::wire::{
    be16, lemma_text_item_len, u16_be, fault_result, nonzero, text_allow_controls_ok, text_ok, validate_request_id, validate_text,
    validate_text_allow_controls, WireError,
};

verus! {

/// Identifies a secure claim frame (`"EABS"`).
pub const SECURE_MAGIC: [u8; 4] = [0x45, 0x41, 0x42, 0x53];
/// Current secure frame version.
pub const SECURE_WIRE_VERSION: u16 = 2;
/// Fixed bytes before a secure CBOR payload.
pub const SECURE_HEADER_LEN: usize = 12;
/// Upper bound for an entire secure frame.
pub const MAX_SECURE_FRAME_LEN: usize = 65536;
/// Largest session token carried in a request.
pub const MAX_SESSION_TOKEN_LEN: usize = 2048;

pub const MAX_IDENTIFIER_LEN: usize = 256;
pub const MAX_TIMESTAMP_LEN: usize = 64;
pub const MAX_DIGEST_LEN: usize = 128;
pub const MAX_EVIDENCE_LEN: usize = 32768;
pub const MAX_ERROR_DETAIL_LEN: usize = 512;

#[derive(Clone, Copy, Debug, Eq, PartialEq, Structural)]
pub enum SecureMessageKind {
    SubmitClaimRequest,
    SubmitClaimResponse,
    ClaimStatusRequest,
    ClaimStatusResponse,
    ProtocolErrorResponse,
}

impl SecureMessageKind {
    /// The id written in the header.
    pub open spec fn code_of(self) -> u16 {
        match self {
            SecureMessageKind::SubmitClaimRequest => 1,
            SecureMessageKind::SubmitClaimResponse => 2,
            SecureMessageKind::ClaimStatusRequest => 3,
            SecureMessageKind::ClaimStatusResponse => 4,
            SecureMessageKind::ProtocolErrorResponse => 5,
        }
    }

    /// The id written in the header.
    pub fn code(self) -> (r: u16)
        ensures
            r == self.code_of(),
    {
        match self {
            SecureMessageKind::SubmitClaimRequest => 1,
            SecureMessageKind::SubmitClaimResponse => 2,
            SecureMessageKind::ClaimStatusRequest => 3,
            SecureMessageKind::ClaimStatusResponse => 4,
            SecureMessageKind::ProtocolErrorResponse => 5,
        }
    }

    /// The kind with header id `value`; another id is `UnknownMessageKind`.
    pub fn from_code(value: u16) -> (r: Result<SecureMessageKind, WireError>)
        ensures
            1 <= value <= 5 ==> r is Ok && r->Ok_0.code_of() == value,
            !(1 <= value <= 5) ==> r == Err::<SecureMessageKind, WireError>(
                WireError::UnknownMessageKind(value),
            ),
    {
        match value {
            1 => Ok(SecureMessageKind::SubmitClaimRequest),
            2 => Ok(SecureMessageKind::SubmitClaimResponse),
            3 => Ok(SecureMessageKind::ClaimStatusRequest),
            4 => Ok(SecureMessageKind::ClaimStatusResponse),
            5 => Ok(SecureMessageKind::ProtocolErrorResponse),
            other => Err(WireError::UnknownMessageKind(other)),
        }
    }
}

#[derive(Clone, Debug, Eq, PartialEq)]
pub struct SubmitClaimRequest {
    pub request_id: [u8; 16],
    /// Bearer credential carried only inside authenticated QUIC; the server
    /// derives the destination player from it.
    pub session_token: String,
    pub envelope: EabClaimEnvelope,
}

#[derive(Clone, Debug, Eq, PartialEq)]
pub struct SubmitClaimResponse {
    pub request_id: [u8; 16],
    pub acknowledgement: EabClaimAcknowledgement,
}

#[derive(Clone, Debug, Eq, PartialEq)]
pub struct ClaimStatusRequest {
    pub request_id: [u8; 16],
    pub session_token: String,
    pub claim_id: String,
}

#[derive(Clone, Debug, Eq, PartialEq)]
pub struct ClaimStatusResponse {
    pub request_id: [u8; 16],
    pub claim_id: String,
    pub acknowledgement: Option<EabClaimAcknowledgement>,
}

#[derive(Clone, Copy, Debug, Eq, PartialEq, Structural)]
pub enum ProtocolErrorCode {
    InvalidRequest,
    AuthenticationFailed,
    UnsupportedMessage,
    Internal,
}

impl ProtocolErrorCode {
    /// The number written for the code.
    pub open spec fn number_of(self) -> u16 {
        match self {
            ProtocolErrorCode::InvalidRequest => 1,
            ProtocolErrorCode::AuthenticationFailed => 2,
            ProtocolErrorCode::UnsupportedMessage => 3,
            ProtocolErrorCode::Internal => 4,
        }
    }

    /// The number written for the code.
    pub fn number(self) -> (r: u16)
        ensures
            r == self.number_of(),
    {
        match self {
            ProtocolErrorCode::InvalidRequest => 1,
            ProtocolErrorCode::AuthenticationFailed => 2,
            ProtocolErrorCode::UnsupportedMessage => 3,
            ProtocolErrorCode::Internal => 4,
        }
    }

    /// The code numbered `value`; another number is
    /// `InvalidField("protocol error code")`.
    pub fn from_number(value: u16) -> (r: Result<ProtocolErrorCode, WireError>)
        ensures
            1 <= value <= 4 ==> r is Ok && r->Ok_0.number_of() == value,
            !(1 <= value <= 4) ==> r == Err::<ProtocolErrorCode, WireError>(
                WireError::InvalidField("protocol error code"),
            ),
    {
        match value {
            1 => Ok(ProtocolErrorCode::InvalidRequest),
            2 => Ok(ProtocolErrorCode::AuthenticationFailed),
            3 => Ok(ProtocolErrorCode::UnsupportedMessage),
            4 => Ok(ProtocolErrorCode::Internal),
            _ => Err(WireError::InvalidField("protocol error code")),
        }
    }
}

#[derive(Clone, Debug, Eq, PartialEq)]
pub struct ProtocolErrorResponse {
    pub request_id: [u8; 16],
    pub code: ProtocolErrorCode,
    pub retryable: bool,
    pub detail: String,
}

/// Short-lived request and response values of the secure plane.
#[derive(Clone, Debug, Eq, PartialEq)]
pub enum SecureMessage {
    SubmitClaimRequest(SubmitClaimRequest),
    SubmitClaimResponse(SubmitClaimResponse),
    ClaimStatusRequest(ClaimStatusRequest),
    ClaimStatusResponse(ClaimStatusResponse),
    ProtocolErrorResponse(ProtocolErrorResponse),
}

pub struct SubmitClaimRequestView {
    pub request_id: Seq<u8>,
    pub session_token: Seq<char>,
    pub envelope: EabClaimEnvelopeView,
}

pub struct SubmitClaimResponseView {
    pub request_id: Seq<u8>,
    pub acknowledgement: EabClaimAcknowledgementView,
}

pub struct ClaimStatusRequestView {
    pub request_id: Seq<u8>,
    pub session_token: Seq<char>,
    pub claim_id: Seq<char>,
}

pub struct ClaimStatusResponseView {
    pub request_id: Seq<u8>,
    pub claim_id: Seq<char>,
    pub acknowledgement: Option<EabClaimAcknowledgementView>,
}

pub struct ProtocolErrorResponseView {
    pub request_id: Seq<u8>,
    pub code: ProtocolErrorCode,
    pub retryable: bool,
    pub detail: Seq<char>,
}

pub enum SecureMessageView {
    SubmitClaimRequest(SubmitClaimRequestView),
    SubmitClaimResponse(SubmitClaimResponseView),
    ClaimStatusRequest(ClaimStatusRequestView),
    ClaimStatusResponse(ClaimStatusResponseView),
    ProtocolErrorResponse(ProtocolErrorResponseView),
}

/// An optional acknowledgement by its view.
pub open spec fn ack_view(a: Option<EabClaimAcknowledgement>) -> Option<EabClaimAcknowledgementView> {
    match a {
        Some(v) => Some(v@),
        None => None,
    }
}

impl View for SecureMessage {
    type V = SecureMessageView;

    open spec fn view(&self) -> SecureMessageView {
        match self {
            SecureMessage::SubmitClaimRequest(m) => SecureMessageView::SubmitClaimRequest(
                SubmitClaimRequestView {
                    request_id: m.request_id@,
                    session_token: m.session_token@,
                    envelope: m.envelope@,
                },
            ),
            SecureMessage::SubmitClaimResponse(m) => SecureMessageView::SubmitClaimResponse(
                SubmitClaimResponseView {
                    request_id: m.request_id@,
                    acknowledgement: m.acknowledgement@,
                },
            ),
            SecureMessage::ClaimStatusRequest(m) => SecureMessageView::ClaimStatusRequest(
                ClaimStatusRequestView {
                    request_id: m.request_id@,
                    session_token: m.session_token@,
                    claim_id: m.claim_id@,
                },
            ),
            SecureMessage::ClaimStatusResponse(m) => SecureMessageView::ClaimStatusResponse(
                ClaimStatusResponseView {
                    request_id: m.request_id@,
                    claim_id: m.claim_id@,
                    acknowledgement: ack_view(m.acknowledgement),
                },
            ),
            SecureMessage::ProtocolErrorResponse(m) => SecureMessageView::ProtocolErrorResponse(
                ProtocolErrorResponseView {
                    request_id: m.request_id@,
                    code: m.code,
                    retryable: m.retryable,
                    detail: m.detail@,
                },
            ),
        }
    }
}

/// The kind of a message.
pub open spec fn secure_kind_of(m: SecureMessageView) -> SecureMessageKind {
    match m {
        SecureMessageView::SubmitClaimRequest(_) => SecureMessageKind::SubmitClaimRequest,
        SecureMessageView::SubmitClaimResponse(_) => SecureMessageKind::SubmitClaimResponse,
        SecureMessageView::ClaimStatusRequest(_) => SecureMessageKind::ClaimStatusRequest,
        SecureMessageView::ClaimStatusResponse(_) => SecureMessageKind::ClaimStatusResponse,
        SecureMessageView::ProtocolErrorResponse(_) => SecureMessageKind::ProtocolErrorResponse,
    }
}

/// The request id of a message.
pub open spec fn secure_request_id_of(m: SecureMessageView) -> Seq<u8> {
    match m {
        SecureMessageView::SubmitClaimRequest(v) => v.request_id,
        SecureMessageView::SubmitClaimResponse(v) => v.request_id,
        SecureMessageView::ClaimStatusRequest(v) => v.request_id,
        SecureMessageView::ClaimStatusResponse(v) => v.request_id,
        SecureMessageView::ProtocolErrorResponse(v) => v.request_id,
    }
}

// ---------------------------------------------------------------------
// Validation
// ---------------------------------------------------------------------

/// The first record field that breaks its text rule.
pub open spec fn record_fault(r: OfflineAchievementRecordView) -> Option<&'static str> {
    if !text_ok(r.local_award_id, MAX_IDENTIFIER_LEN as int) {
        Some("local_award_id")
    } else if !text_ok(r.claim_id, MAX_IDENTIFIER_LEN as int) {
        Some("claim_id")
    } else if !text_ok(r.developer, MAX_IDENTIFIER_LEN as int) {
        Some("developer")
    } else if !text_ok(r.game, MAX_IDENTIFIER_LEN as int) {
        Some("game")
    } else if !text_ok(r.achievement_id, MAX_IDENTIFIER_LEN as int) {
        Some("achievement_id")
    } else if !text_ok(r.definition_digest, MAX_DIGEST_LEN as int) {
        Some("definition_digest")
    } else if !text_ok(r.local_player_id, MAX_IDENTIFIER_LEN as int) {
        Some("local_player_id")
    } else if !text_ok(r.save_id, MAX_IDENTIFIER_LEN as int) {
        Some("save_id")
    } else if !text_ok(r.installation_id, MAX_IDENTIFIER_LEN as int) {
        Some("installation_id")
    } else if !text_ok(r.session_id, MAX_IDENTIFIER_LEN as int) {
        Some("session_id")
    } else if !text_ok(r.earned_at_local, MAX_TIMESTAMP_LEN as int) {
        Some("earned_at_local")
    } else if !text_ok(r.recorded_at_local, MAX_TIMESTAMP_LEN as int) {
        Some("recorded_at_local")
    } else if !text_ok(r.game_build, MAX_IDENTIFIER_LEN as int) {
        Some("game_build")
    } else if !text_ok(r.event_key, MAX_IDENTIFIER_LEN as int) {
        Some("event_key")
    } else if r.evidence is Some && !text_allow_controls_ok(
        r.evidence->0,
        MAX_EVIDENCE_LEN as int,
    ) {
        Some("evidence")
    } else if !text_ok(r.local_record_hash, MAX_DIGEST_LEN as int) {
        Some("local_record_hash")
    } else {
        None
    }
}

/// The first acknowledgement field that breaks its text rule.
pub open spec fn ack_fault(a: EabClaimAcknowledgementView) -> Option<&'static str> {
    if !text_ok(a.claim_id, MAX_IDENTIFIER_LEN as int) {
        Some("claim_id")
    } else if !text_ok(a.developer, MAX_IDENTIFIER_LEN as int) {
        Some("developer")
    } else if !text_ok(a.game, MAX_IDENTIFIER_LEN as int) {
        Some("game")
    } else if !text_ok(a.achievement_id, MAX_IDENTIFIER_LEN as int) {
        Some("achievement_id")
    } else if !text_ok(a.first_observed_at, MAX_TIMESTAMP_LEN as int) {
        Some("first_observed_at")
    } else if a.decided_at is Some && !text_ok(a.decided_at->0, MAX_TIMESTAMP_LEN as int) {
        Some("decided_at")
    } else if a.award is Some && !text_ok(a.award->0.transaction_id, MAX_IDENTIFIER_LEN as int) {
        Some("transaction_id")
    } else if a.award is Some && !text_ok(a.award->0.block_hash, MAX_DIGEST_LEN as int) {
        Some("block_hash")
    } else {
        None
    }
}

/// The first rule that a secure message breaks, if any.
pub open spec fn secure_fault(m: SecureMessageView) -> Option<&'static str> {
    if !nonzero(secure_request_id_of(m)) {
        Some("request_id must be non-zero")
    } else {
        match m {
            SecureMessageView::SubmitClaimRequest(v) => if !text_ok(
                v.session_token,
                MAX_SESSION_TOKEN_LEN as int,
            ) {
                Some("session_token")
            } else {
                record_fault(v.envelope.record)
            },
            SecureMessageView::SubmitClaimResponse(v) => ack_fault(v.acknowledgement),
            SecureMessageView::ClaimStatusRequest(v) => if !text_ok(
                v.session_token,
                MAX_SESSION_TOKEN_LEN as int,
            ) {
                Some("session_token")
            } else if !text_ok(v.claim_id, MAX_IDENTIFIER_LEN as int) {
                Some("claim_id")
            } else {
                None
            },
            SecureMessageView::ClaimStatusResponse(v) => if !text_ok(
                v.claim_id,
                MAX_IDENTIFIER_LEN as int,
            ) {
                Some("claim_id")
            } else {
                match v.acknowledgement {
                    Some(a) => if ack_fault(a) is Some {
                        ack_fault(a)
                    } else if a.claim_id != v.claim_id {
                        Some("status claim_id mismatch")
                    } else {
                        None
                    },
                    None => None,
                }
            },
            SecureMessageView::ProtocolErrorResponse(v) => if !text_ok(
                v.detail,
                MAX_ERROR_DETAIL_LEN as int,
            ) {
                Some("error detail")
            } else {
                None
            },
        }
    }
}

fn validate_record_texts(record: &OfflineAchievementRecord) -> (r: Result<(), WireError>)
    ensures
        r == fault_result(record_fault(record@)),
{
    validate_text(record.local_award_id.as_str(), MAX_IDENTIFIER_LEN, "local_award_id")?;
    validate_text(record.claim_id.as_str(), MAX_IDENTIFIER_LEN, "claim_id")?;
    validate_text(record.developer.as_str(), MAX_IDENTIFIER_LEN, "developer")?;
    validate_text(record.game.as_str(), MAX_IDENTIFIER_LEN, "game")?;
    validate_text(record.achievement_id.as_str(), MAX_IDENTIFIER_LEN, "achievement_id")?;
    validate_text(record.definition_digest.as_str(), MAX_DIGEST_LEN, "definition_digest")?;
    validate_text(record.local_player_id.as_str(), MAX_IDENTIFIER_LEN, "local_player_id")?;
    validate_text(record.save_id.as_str(), MAX_IDENTIFIER_LEN, "save_id")?;
    validate_text(record.installation_id.as_str(), MAX_IDENTIFIER_LEN, "installation_id")?;
    validate_text(record.session_id.as_str(), MAX_IDENTIFIER_LEN, "session_id")?;
    validate_text(record.earned_at_local.as_str(), MAX_TIMESTAMP_LEN, "earned_at_local")?;
    validate_text(record.recorded_at_local.as_str(), MAX_TIMESTAMP_LEN, "recorded_at_local")?;
    validate_text(record.game_build.as_str(), MAX_IDENTIFIER_LEN, "game_build")?;
    validate_text(record.event_key.as_str(), MAX_IDENTIFIER_LEN, "event_key")?;
    match &record.evidence {
        Some(evidence) => {
            validate_text_allow_controls(evidence.as_str(), MAX_EVIDENCE_LEN, "evidence")?;
        },
        None => {},
    }
    validate_text(record.local_record_hash.as_str(), MAX_DIGEST_LEN, "local_record_hash")
}

/// Checks the text fields of an envelope's record.
fn validate_envelope(envelope: &EabClaimEnvelope) -> (r: Result<(), WireError>)
    ensures
        r == fault_result(record_fault(envelope@.record)),
{
    validate_record_texts(&envelope.record)
}

/// Checks the text fields of an acknowledgement.
fn validate_ack(ack: &EabClaimAcknowledgement) -> (r: Result<(), WireError>)
    ensures
        r == fault_result(ack_fault(ack@)),
{
    validate_text(ack.claim_id.as_str(), MAX_IDENTIFIER_LEN, "claim_id")?;
    validate_text(ack.developer.as_str(), MAX_IDENTIFIER_LEN, "developer")?;
    validate_text(ack.game.as_str(), MAX_IDENTIFIER_LEN, "game")?;
    validate_text(ack.achievement_id.as_str(), MAX_IDENTIFIER_LEN, "achievement_id")?;
    validate_text(ack.first_observed_at.as_str(), MAX_TIMESTAMP_LEN, "first_observed_at")?;
    match &ack.decided_at {
        Some(timestamp) => {
            validate_text(timestamp.as_str(), MAX_TIMESTAMP_LEN, "decided_at")?;
        },
        None => {},
    }
    match &ack.award {
        Some(award) => {
            validate_text(award.transaction_id.as_str(), MAX_IDENTIFIER_LEN, "transaction_id")?;
            validate_text(award.block_hash.as_str(), MAX_DIGEST_LEN, "block_hash")?;
        },
        None => {},
    }
    Ok(())
}

impl SecureMessage {
    pub fn kind(&self) -> (r: SecureMessageKind)
        ensures
            r == secure_kind_of(self@),
    {
        match self {
            SecureMessage::SubmitClaimRequest(_) => SecureMessageKind::SubmitClaimRequest,
            SecureMessage::SubmitClaimResponse(_) => SecureMessageKind::SubmitClaimResponse,
            SecureMessage::ClaimStatusRequest(_) => SecureMessageKind::ClaimStatusRequest,
            SecureMessage::ClaimStatusResponse(_) => SecureMessageKind::ClaimStatusResponse,
            SecureMessage::ProtocolErrorResponse(_) => SecureMessageKind::ProtocolErrorResponse,
        }
    }

    pub fn request_id(&self) -> (r: [u8; 16])
        ensures
            r@ == secure_request_id_of(self@),
    {
        match self {
            SecureMessage::SubmitClaimRequest(value) => value.request_id,
            SecureMessage::SubmitClaimResponse(value) => value.request_id,
            SecureMessage::ClaimStatusRequest(value) => value.request_id,
            SecureMessage::ClaimStatusResponse(value) => value.request_id,
            SecureMessage::ProtocolErrorResponse(value) => value.request_id,
        }
    }

    pub fn validate(&self) -> (r: Result<(), WireError>)
        ensures
            r == fault_result(secure_fault(self@)),
    {
        let request_id = self.request_id();
        validate_request_id(&request_id)?;
        match self {
            SecureMessage::SubmitClaimRequest(value) => {
                validate_text(value.session_token.as_str(), MAX_SESSION_TOKEN_LEN, "session_token")?;
                validate_envelope(&value.envelope)
            },
            SecureMessage::SubmitClaimResponse(value) => validate_ack(&value.acknowledgement),
            SecureMessage::ClaimStatusRequest(value) => {
                validate_text(value.session_token.as_str(), MAX_SESSION_TOKEN_LEN, "session_token")?;
                validate_text(value.claim_id.as_str(), MAX_IDENTIFIER_LEN, "claim_id")
            },
            SecureMessage::ClaimStatusResponse(value) => {
                validate_text(value.claim_id.as_str(), MAX_IDENTIFIER_LEN, "claim_id")?;
                match &value.acknowledgement {
                    Some(ack) => {
                        validate_ack(ack)?;
                        if ack.claim_id != value.claim_id {
                            return Err(WireError::InvalidField("status claim_id mismatch"));
                        }
                    },
                    None => {},
                }
                Ok(())
            },
            SecureMessage::ProtocolErrorResponse(value) => {
                validate_text(value.detail.as_str(), MAX_ERROR_DETAIL_LEN, "error detail")
            },
        }
    }
}

// ---------------------------------------------------------------------
// Numeric codes of the claim enums
// ---------------------------------------------------------------------

pub open spec fn readiness_code(value: OfflineClaimReadiness) -> u8 {
    match value {
        OfflineClaimReadiness::Ready => 1,
        OfflineClaimReadiness::NotAllowedByIssuancePolicy => 2,
        OfflineClaimReadiness::MissingRequiredEvidence => 3,
    }
}

pub open spec fn disposition_code(value: EabClaimDisposition) -> u8 {
    match value {
        EabClaimDisposition::Pending => 1,
        EabClaimDisposition::Acknowledged => 2,
        EabClaimDisposition::Rejected => 3,
        EabClaimDisposition::Conflict => 4,
    }
}

pub open spec fn decision_code(value: EabClaimDecisionCode) -> u8 {
    match value {
        EabClaimDecisionCode::PendingReview => 1,
        EabClaimDecisionCode::Acknowledged => 2,
        EabClaimDecisionCode::AlreadyAcknowledged => 3,
        EabClaimDecisionCode::InvalidEnvelope => 4,
        EabClaimDecisionCode::ClaimNotReady => 5,
        EabClaimDecisionCode::ClaimIdPayloadMismatch => 6,
        EabClaimDecisionCode::DefinitionNotFound => 7,
        EabClaimDecisionCode::DefinitionIdentityMismatch => 8,
        EabClaimDecisionCode::DefinitionDigestMismatch => 9,
        EabClaimDecisionCode::IssuanceModeDisallowsClaim => 10,
        EabClaimDecisionCode::EvidenceRequired => 11,
        EabClaimDecisionCode::EventMismatch => 12,
        EabClaimDecisionCode::ThresholdNotMet => 13,
        EabClaimDecisionCode::RepeatableNotSupported => 14,
    }
}

fn readiness_to_u8(value: OfflineClaimReadiness) -> (r: u8)
    ensures
        r == readiness_code(value),
{
    match value {
        OfflineClaimReadiness::Ready => 1,
        OfflineClaimReadiness::NotAllowedByIssuancePolicy => 2,
        OfflineClaimReadiness::MissingRequiredEvidence => 3,
    }
}

fn readiness_from_u8(value: u8) -> (r: Result<OfflineClaimReadiness, WireError>)
    ensures
        1 <= value <= 3 ==> r is Ok && readiness_code(r->Ok_0) == value,
        !(1 <= value <= 3) ==> r == Err::<OfflineClaimReadiness, WireError>(
            WireError::InvalidField("claim_readiness"),
        ),
{
    match value {
        1 => Ok(OfflineClaimReadiness::Ready),
        2 => Ok(OfflineClaimReadiness::NotAllowedByIssuancePolicy),
        3 => Ok(OfflineClaimReadiness::MissingRequiredEvidence),
        _ => Err(WireError::InvalidField("claim_readiness")),
    }
}

fn disposition_to_u8(value: EabClaimDisposition) -> (r: u8)
    ensures
        r == disposition_code(value),
{
    match value {
        EabClaimDisposition::Pending => 1,
        EabClaimDisposition::Acknowledged => 2,
        EabClaimDisposition::Rejected => 3,
        EabClaimDisposition::Conflict => 4,
    }
}

fn disposition_from_u8(value: u8) -> (r: Result<EabClaimDisposition, WireError>)
    ensures
        1 <= value <= 4 ==> r is Ok && disposition_code(r->Ok_0) == value,
        !(1 <= value <= 4) ==> r == Err::<EabClaimDisposition, WireError>(
            WireError::InvalidField("claim disposition"),
        ),
{
    match value {
        1 => Ok(EabClaimDisposition::Pending),
        2 => Ok(EabClaimDisposition::Acknowledged),
        3 => Ok(EabClaimDisposition::Rejected),
        4 => Ok(EabClaimDisposition::Conflict),
        _ => Err(WireError::InvalidField("claim disposition")),
    }
}

fn decision_to_u8(value: EabClaimDecisionCode) -> (r: u8)
    ensures
        r == decision_code(value),
{
    match value {
        EabClaimDecisionCode::PendingReview => 1,
        EabClaimDecisionCode::Acknowledged => 2,
        EabClaimDecisionCode::AlreadyAcknowledged => 3,
        EabClaimDecisionCode::InvalidEnvelope => 4,
        EabClaimDecisionCode::ClaimNotReady => 5,
        EabClaimDecisionCode::ClaimIdPayloadMismatch => 6,
        EabClaimDecisionCode::DefinitionNotFound => 7,
        EabClaimDecisionCode::DefinitionIdentityMismatch => 8,
        EabClaimDecisionCode::DefinitionDigestMismatch => 9,
        EabClaimDecisionCode::IssuanceModeDisallowsClaim => 10,
        EabClaimDecisionCode::EvidenceRequired => 11,
        EabClaimDecisionCode::EventMismatch => 12,
        EabClaimDecisionCode::ThresholdNotMet => 13,
        EabClaimDecisionCode::RepeatableNotSupported => 14,
    }
}

fn decision_from_u8(value: u8) -> (r: Result<EabClaimDecisionCode, WireError>)
    ensures
        1 <= value <= 14 ==> r is Ok && decision_code(r->Ok_0) == value,
        !(1 <= value <= 14) ==> r == Err::<EabClaimDecisionCode, WireError>(
            WireError::InvalidField("claim decision code"),
        ),
{
    match value {
        1 => Ok(EabClaimDecisionCode::PendingReview),
        2 => Ok(EabClaimDecisionCode::Acknowledged),
        3 => Ok(EabClaimDecisionCode::AlreadyAcknowledged),
        4 => Ok(EabClaimDecisionCode::InvalidEnvelope),
        5 => Ok(EabClaimDecisionCode::ClaimNotReady),
        6 => Ok(EabClaimDecisionCode::ClaimIdPayloadMismatch),
        7 => Ok(EabClaimDecisionCode::DefinitionNotFound),
        8 => Ok(EabClaimDecisionCode::DefinitionIdentityMismatch),
        9 => Ok(EabClaimDecisionCode::DefinitionDigestMismatch),
        10 => Ok(EabClaimDecisionCode::IssuanceModeDisallowsClaim),
        11 => Ok(EabClaimDecisionCode::EvidenceRequired),
        12 => Ok(EabClaimDecisionCode::EventMismatch),
        13 => Ok(EabClaimDecisionCode::ThresholdNotMet),
        14 => Ok(EabClaimDecisionCode::RepeatableNotSupported),
        _ => Err(WireError::InvalidField("claim decision code")),
    }
}


// ---------------------------------------------------------------------
// Encoding
//
// Each `*_items` spec function appends the items of a value to the bytes
// `p` written before it, in the order the encoder writes them.
// ---------------------------------------------------------------------

/// An unsigned integer item.
pub open spec fn uint_item(v: u64) -> Seq<u8> {
    cbor_head(MAJOR_UNSIGNED, v)
}

/// A text item, or `null` for `None`.
pub open spec fn opt_text_item(s: Option<Seq<char>>) -> Seq<u8> {
    match s {
        Some(v) => cbor_text(v),
        None => seq![CBOR_NULL],
    }
}

/// The first eleven items of a record.
pub open spec fn record_head_items(p: Seq<u8>, r: OfflineAchievementRecordView) -> Seq<u8> {
    p + cbor_head(MAJOR_ARRAY, 21) + uint_item(r.schema_version as u64) + cbor_text(
        r.local_award_id,
    ) + cbor_text(r.claim_id) + cbor_text(r.developer) + cbor_text(r.game) + cbor_text(
        r.achievement_id,
    ) + uint_item(r.version as u64) + cbor_text(r.definition_digest) + cbor_text(
        r.local_player_id,
    ) + cbor_text(r.save_id)
}

/// A record as an array of 21 items, in declaration order.
pub open spec fn record_items(p: Seq<u8>, r: OfflineAchievementRecordView) -> Seq<u8> {
    record_head_items(p, r) + cbor_text(r.installation_id) + cbor_text(r.session_id) + uint_item(
        r.client_sequence,
    ) + cbor_text(r.earned_at_local) + cbor_text(r.recorded_at_local) + cbor_text(r.game_build)
        + cbor_text(r.event_key) + uint_item(r.event_value) + opt_text_item(r.evidence)
        + uint_item(readiness_code(r.claim_readiness) as u64) + cbor_text(r.local_record_hash)
}

/// An envelope: its schema version, then its record.
pub open spec fn envelope_items(p: Seq<u8>, e: EabClaimEnvelopeView) -> Seq<u8> {
    record_items(p + cbor_head(MAJOR_ARRAY, 2) + uint_item(e.schema_version as u64), e.record)
}

/// An award reference as a pair, or `null`.
pub open spec fn award_items(p: Seq<u8>, a: Option<EabAwardReferenceView>) -> Seq<u8> {
    match a {
        Some(v) => p + cbor_head(MAJOR_ARRAY, 2) + cbor_text(v.transaction_id) + cbor_text(
            v.block_hash,
        ),
        None => p + seq![CBOR_NULL],
    }
}

/// An acknowledgement as an array of 11 items.
pub open spec fn ack_items(p: Seq<u8>, a: EabClaimAcknowledgementView) -> Seq<u8> {
    award_items(
        p + cbor_head(MAJOR_ARRAY, 11) + uint_item(a.schema_version as u64) + cbor_text(a.claim_id)
            + cbor_text(a.developer) + cbor_text(a.game) + cbor_text(a.achievement_id) + uint_item(
            a.version as u64,
        ) + uint_item(disposition_code(a.disposition) as u64) + uint_item(
            decision_code(a.code) as u64,
        ) + cbor_text(a.first_observed_at) + opt_text_item(a.decided_at),
        a.award,
    )
}

/// An optional acknowledgement, or `null`.
pub open spec fn opt_ack_items(p: Seq<u8>, a: Option<EabClaimAcknowledgementView>) -> Seq<u8> {
    match a {
        Some(v) => ack_items(p, v),
        None => p + seq![CBOR_NULL],
    }
}

/// A CBOR boolean.
pub open spec fn bool_item(b: bool) -> Seq<u8> {
    if b {
        seq![0xf5u8]
    } else {
        seq![0xf4u8]
    }
}

pub open spec fn submit_request_payload(v: SubmitClaimRequestView) -> Seq<u8> {
    envelope_items(
        Seq::empty() + cbor_head(MAJOR_ARRAY, 3) + cbor_bytes(v.request_id) + cbor_text(
            v.session_token,
        ),
        v.envelope,
    )
}

pub open spec fn submit_response_payload(v: SubmitClaimResponseView) -> Seq<u8> {
    ack_items(Seq::empty() + cbor_head(MAJOR_ARRAY, 2) + cbor_bytes(v.request_id), v.acknowledgement)
}

pub open spec fn status_request_payload(v: ClaimStatusRequestView) -> Seq<u8> {
    Seq::empty() + cbor_head(MAJOR_ARRAY, 3) + cbor_bytes(v.request_id) + cbor_text(v.session_token)
        + cbor_text(v.claim_id)
}

pub open spec fn status_response_payload(v: ClaimStatusResponseView) -> Seq<u8> {
    opt_ack_items(
        Seq::empty() + cbor_head(MAJOR_ARRAY, 3) + cbor_bytes(v.request_id) + cbor_text(v.claim_id),
        v.acknowledgement,
    )
}

pub open spec fn protocol_error_payload(v: ProtocolErrorResponseView) -> Seq<u8> {
    Seq::empty() + cbor_head(MAJOR_ARRAY, 4) + cbor_bytes(v.request_id) + uint_item(
        v.code.number_of() as u64,
    ) + bool_item(v.retryable) + cbor_text(v.detail)
}

/// The CBOR body of a secure message.
#[verifier::opaque]
pub open spec fn secure_payload(m: SecureMessageView) -> Seq<u8> {
    match m {
        SecureMessageView::SubmitClaimRequest(v) => submit_request_payload(v),
        SecureMessageView::SubmitClaimResponse(v) => submit_response_payload(v),
        SecureMessageView::ClaimStatusRequest(v) => status_request_payload(v),
        SecureMessageView::ClaimStatusResponse(v) => status_response_payload(v),
        SecureMessageView::ProtocolErrorResponse(v) => protocol_error_payload(v),
    }
}

/// `v` in four bytes, most significant first.
pub open spec fn u32_be(v: u32) -> Seq<u8> {
    seq![
        (v / 0x100_0000) as u8,
        ((v / 0x1_0000) % 256) as u8,
        ((v / 256) % 256) as u8,
        (v % 256) as u8,
    ]
}

/// The bytes of `SECURE_MAGIC`.
pub open spec fn secure_magic() -> Seq<u8> {
    seq![0x45u8, 0x41u8, 0x42u8, 0x53u8]
}

/// A frame of kind `code` around `payload`.
pub open spec fn secure_frame_bytes(code: u16, payload: Seq<u8>) -> Seq<u8> {
    secure_magic() + u16_be(SECURE_WIRE_VERSION) + u16_be(code) + u32_be(payload.len() as u32)
        + payload
}

/// The complete frame of a secure message.
pub open spec fn secure_frame(m: SecureMessageView) -> Seq<u8> {
    secure_frame_bytes(secure_kind_of(m).code_of(), secure_payload(m))
}

fn write_opt_text(out: &mut Vec<u8>, s: &Option<String>)
    ensures
        final(out)@ == old(out)@ + opt_text_item(opt_view(*s)),
{
    match s {
        Some(v) => cbor_write_str(out, v.as_str()),
        None => cbor_write_null(out),
    }
}

fn encode_record_head(out: &mut Vec<u8>, value: &OfflineAchievementRecord)
    ensures
        final(out)@ == record_head_items(old(out)@, value@),
{
    cbor_write_array(out, 21);
    cbor_write_u64(out, value.schema_version as u64);
    cbor_write_str(out, value.local_award_id.as_str());
    cbor_write_str(out, value.claim_id.as_str());
    cbor_write_str(out, value.developer.as_str());
    cbor_write_str(out, value.game.as_str());
    cbor_write_str(out, value.achievement_id.as_str());
    cbor_write_u64(out, value.version as u64);
    cbor_write_str(out, value.definition_digest.as_str());
    cbor_write_str(out, value.local_player_id.as_str());
    cbor_write_str(out, value.save_id.as_str());
}

fn encode_record(out: &mut Vec<u8>, value: &OfflineAchievementRecord)
    ensures
        final(out)@ == record_items(old(out)@, value@),
{
    encode_record_head(out, value);
    cbor_write_str(out, value.installation_id.as_str());
    cbor_write_str(out, value.session_id.as_str());
    cbor_write_u64(out, value.client_sequence);
    cbor_write_str(out, value.earned_at_local.as_str());
    cbor_write_str(out, value.recorded_at_local.as_str());
    cbor_write_str(out, value.game_build.as_str());
    cbor_write_str(out, value.event_key.as_str());
    cbor_write_u64(out, value.event_value);
    write_opt_text(out, &value.evidence);
    cbor_write_u64(out, readiness_to_u8(value.claim_readiness) as u64);
    cbor_write_str(out, value.local_record_hash.as_str());
}

fn encode_envelope(out: &mut Vec<u8>, value: &EabClaimEnvelope)
    ensures
        final(out)@ == envelope_items(old(out)@, value@),
{
    cbor_write_array(out, 2);
    cbor_write_u64(out, value.schema_version as u64);
    encode_record(out, &value.record);
}

fn encode_ack(out: &mut Vec<u8>, value: &EabClaimAcknowledgement)
    ensures
        final(out)@ == ack_items(old(out)@, value@),
{
    cbor_write_array(out, 11);
    cbor_write_u64(out, value.schema_version as u64);
    cbor_write_str(out, value.claim_id.as_str());
    cbor_write_str(out, value.developer.as_str());
    cbor_write_str(out, value.game.as_str());
    cbor_write_str(out, value.achievement_id.as_str());
    cbor_write_u64(out, value.version as u64);
    cbor_write_u64(out, disposition_to_u8(value.disposition) as u64);
    cbor_write_u64(out, decision_to_u8(value.code) as u64);
    cbor_write_str(out, value.first_observed_at.as_str());
    write_opt_text(out, &value.decided_at);
    match &value.award {
        Some(award) => {
            cbor_write_array(out, 2);
            cbor_write_str(out, award.transaction_id.as_str());
            cbor_write_str(out, award.block_hash.as_str());
        },
        None => {
            cbor_write_null(out);
        },
    }
}

fn encode_payload(out: &mut Vec<u8>, message: &SecureMessage)
    requires
        old(out)@ == Seq::<u8>::empty(),
    ensures
        final(out)@ == secure_payload(message@),
{
    reveal(secure_payload);
    match message {
        SecureMessage::SubmitClaimRequest(value) => {
            cbor_write_array(out, 3);
            cbor_write_bytes(out, value.request_id.as_slice());
            cbor_write_str(out, value.session_token.as_str());
            encode_envelope(out, &value.envelope);
        },
        SecureMessage::SubmitClaimResponse(value) => {
            cbor_write_array(out, 2);
            cbor_write_bytes(out, value.request_id.as_slice());
            encode_ack(out, &value.acknowledgement);
        },
        SecureMessage::ClaimStatusRequest(value) => {
            cbor_write_array(out, 3);
            cbor_write_bytes(out, value.request_id.as_slice());
            cbor_write_str(out, value.session_token.as_str());
            cbor_write_str(out, value.claim_id.as_str());
        },
        SecureMessage::ClaimStatusResponse(value) => {
            cbor_write_array(out, 3);
            cbor_write_bytes(out, value.request_id.as_slice());
            cbor_write_str(out, value.claim_id.as_str());
            match &value.acknowledgement {
                Some(ack) => encode_ack(out, ack),
                None => cbor_write_null(out),
            }
        },
        SecureMessage::ProtocolErrorResponse(value) => {
            cbor_write_array(out, 4);
            cbor_write_bytes(out, value.request_id.as_slice());
            cbor_write_u64(out, value.code.number() as u64);
            cbor_write_bool(out, value.retryable);
            cbor_write_str(out, value.detail.as_str());
        },
    }
}


proof fn lemma_evidence_item_len(s: Seq<char>)
    requires
        text_allow_controls_ok(s, MAX_EVIDENCE_LEN as int),
    ensures
        cbor_text(s).len() <= MAX_EVIDENCE_LEN + 9,
{
    lemma_head_bounds(MAJOR_TEXT, encode_utf8(s).len() as u64);
}

proof fn lemma_id_len(s: Seq<char>)
    requires
        text_ok(s, MAX_IDENTIFIER_LEN as int),
    ensures
        cbor_text(s).len() <= MAX_IDENTIFIER_LEN + 9,
{
    lemma_text_item_len(s, MAX_IDENTIFIER_LEN as int);
}

proof fn lemma_stamp_len(s: Seq<char>)
    requires
        text_ok(s, MAX_TIMESTAMP_LEN as int),
    ensures
        cbor_text(s).len() <= MAX_TIMESTAMP_LEN + 9,
{
    lemma_text_item_len(s, MAX_TIMESTAMP_LEN as int);
}

proof fn lemma_digest_len(s: Seq<char>)
    requires
        text_ok(s, MAX_DIGEST_LEN as int),
    ensures
        cbor_text(s).len() <= MAX_DIGEST_LEN + 9,
{
    lemma_text_item_len(s, MAX_DIGEST_LEN as int);
}

proof fn lemma_record_items_len(p: Seq<u8>, r: OfflineAchievementRecordView)
    requires
        record_fault(r) is None,
    ensures
        record_items(p, r).len() <= p.len() + 8 * 9 + 1 + 11 * (MAX_IDENTIFIER_LEN + 9) + 2 * (
        MAX_DIGEST_LEN + 9) + 2 * (MAX_TIMESTAMP_LEN + 9) + MAX_EVIDENCE_LEN + 9,
{
    lemma_head_bounds(MAJOR_ARRAY, 21);
    lemma_head_bounds(MAJOR_UNSIGNED, r.schema_version as u64);
    lemma_head_bounds(MAJOR_UNSIGNED, r.version as u64);
    lemma_head_bounds(MAJOR_UNSIGNED, r.client_sequence);
    lemma_head_bounds(MAJOR_UNSIGNED, r.event_value);
    lemma_head_bounds(MAJOR_UNSIGNED, readiness_code(r.claim_readiness) as u64);
    lemma_id_len(r.local_award_id);
    lemma_id_len(r.claim_id);
    lemma_id_len(r.developer);
    lemma_id_len(r.game);
    lemma_id_len(r.achievement_id);
    lemma_digest_len(r.definition_digest);
    lemma_id_len(r.local_player_id);
    lemma_id_len(r.save_id);
    lemma_id_len(r.installation_id);
    lemma_id_len(r.session_id);
    lemma_stamp_len(r.earned_at_local);
    lemma_stamp_len(r.recorded_at_local);
    lemma_id_len(r.game_build);
    lemma_id_len(r.event_key);
    if r.evidence is Some {
        lemma_evidence_item_len(r.evidence->0);
    }
    lemma_digest_len(r.local_record_hash);
}

proof fn lemma_ack_items_len(p: Seq<u8>, a: EabClaimAcknowledgementView)
    requires
        ack_fault(a) is None,
    ensures
        ack_items(p, a).len() <= p.len() + 6 * 9 + 6 * (MAX_IDENTIFIER_LEN + 9) + (MAX_DIGEST_LEN
            + 9) + 2 * (MAX_TIMESTAMP_LEN + 9),
{
    lemma_head_bounds(MAJOR_ARRAY, 11);
    lemma_head_bounds(MAJOR_ARRAY, 2);
    lemma_head_bounds(MAJOR_UNSIGNED, a.schema_version as u64);
    lemma_head_bounds(MAJOR_UNSIGNED, a.version as u64);
    lemma_head_bounds(MAJOR_UNSIGNED, disposition_code(a.disposition) as u64);
    lemma_head_bounds(MAJOR_UNSIGNED, decision_code(a.code) as u64);
    lemma_id_len(a.claim_id);
    lemma_id_len(a.developer);
    lemma_id_len(a.game);
    lemma_id_len(a.achievement_id);
    lemma_stamp_len(a.first_observed_at);
    if a.decided_at is Some {
        lemma_stamp_len(a.decided_at->0);
    }
    if a.award is Some {
        lemma_id_len(a.award->0.transaction_id);
        lemma_digest_len(a.award->0.block_hash);
    }
}

/// Every valid secure message fits one frame.
proof fn lemma_secure_payload_fits(m: SecureMessageView)
    requires
        secure_fault(m) is None,
        secure_request_id_of(m).len() == 16,
    ensures
        secure_payload(m).len() <= MAX_SECURE_FRAME_LEN - SECURE_HEADER_LEN,
{
    reveal(secure_payload);
    lemma_head_bounds(MAJOR_ARRAY, 2);
    lemma_head_bounds(MAJOR_ARRAY, 3);
    lemma_head_bounds(MAJOR_ARRAY, 4);
    lemma_head_bounds(MAJOR_BYTES, 16);
    match m {
        SecureMessageView::SubmitClaimRequest(v) => {
            lemma_text_item_len(v.session_token, MAX_SESSION_TOKEN_LEN as int);
            lemma_head_bounds(MAJOR_UNSIGNED, v.envelope.schema_version as u64);
            let p = Seq::empty() + cbor_head(MAJOR_ARRAY, 3) + cbor_bytes(v.request_id) + cbor_text(
                v.session_token,
            );
            lemma_record_items_len(
                p + cbor_head(MAJOR_ARRAY, 2) + uint_item(v.envelope.schema_version as u64),
                v.envelope.record,
            );
        },
        SecureMessageView::SubmitClaimResponse(v) => {
            lemma_ack_items_len(
                Seq::empty() + cbor_head(MAJOR_ARRAY, 2) + cbor_bytes(v.request_id),
                v.acknowledgement,
            );
        },
        SecureMessageView::ClaimStatusRequest(v) => {
            lemma_text_item_len(v.session_token, MAX_SESSION_TOKEN_LEN as int);
            lemma_id_len(v.claim_id);
        },
        SecureMessageView::ClaimStatusResponse(v) => {
            lemma_id_len(v.claim_id);
            if v.acknowledgement is Some {
                lemma_ack_items_len(
                    Seq::empty() + cbor_head(MAJOR_ARRAY, 3) + cbor_bytes(v.request_id) + cbor_text(
                        v.claim_id,
                    ),
                    v.acknowledgement->0,
                );
            }
        },
        SecureMessageView::ProtocolErrorResponse(v) => {
            lemma_head_bounds(MAJOR_UNSIGNED, v.code.number_of() as u64);
            lemma_text_item_len(v.detail, MAX_ERROR_DETAIL_LEN as int);
        },
    }
}

impl SecureMessage {
    /// Encode the fixed header and deterministic, definite-length CBOR body.
    pub fn encode(&self) -> (r: Result<Vec<u8>, WireError>)
        ensures
            match secure_fault(self@) {
                Some(f) => r == Err::<Vec<u8>, WireError>(WireError::InvalidField(f)),
                None => r is Ok && r->Ok_0@ == secure_frame(self@),
            },
    {
        self.validate()?;
        let mut payload: Vec<u8> = Vec::new();
        encode_payload(&mut payload, self);
        proof {
            lemma_secure_payload_fits(self@);
        }
        if payload.len() > MAX_SECURE_FRAME_LEN - SECURE_HEADER_LEN {
            return Err(
                WireError::FrameTooLarge {
                    actual: SECURE_HEADER_LEN + payload.len(),
                    maximum: MAX_SECURE_FRAME_LEN,
                },
            );
        }
        let payload_len = payload.len() as u32;
        let kind = self.kind().code();
        let mut frame: Vec<u8> = Vec::new();
        frame.push(0x45);
        frame.push(0x41);
        frame.push(0x42);
        frame.push(0x53);
        frame.push((SECURE_WIRE_VERSION / 256) as u8);
        frame.push((SECURE_WIRE_VERSION % 256) as u8);
        frame.push((kind / 256) as u8);
        frame.push((kind % 256) as u8);
        frame.push((payload_len / 0x100_0000) as u8);
        frame.push(((payload_len / 0x1_0000) % 256) as u8);
        frame.push(((payload_len / 256) % 256) as u8);
        frame.push((payload_len % 256) as u8);
        let ghost header = frame@;
        let ghost body = payload@;
        frame.append(&mut payload);
        assert(header =~= secure_magic() + u16_be(SECURE_WIRE_VERSION) + u16_be(kind) + u32_be(
            payload_len,
        ));
        assert(frame@ =~= secure_frame_bytes(kind, body));
        Ok(frame)
    }
}


// ---------------------------------------------------------------------
// Decoding
// ---------------------------------------------------------------------

/// `null` at `pos` reads as `None`; otherwise a text item meeting
/// `text_ok(_, maximum)`.
pub open spec fn parse_opt_text(buf: Seq<u8>, pos: int, maximum: int) -> Option<
    (Option<Seq<char>>, int),
> {
    if 0 <= pos < buf.len() && buf[pos] == CBOR_NULL {
        Some((None, pos + 1))
    } else {
        match parse_text(buf, pos, maximum) {
            Some((t, e)) => Some((Some(t), e)),
            None => None,
        }
    }
}

/// `null` at `pos` reads as `None`; otherwise evidence text.
pub open spec fn parse_opt_evidence(buf: Seq<u8>, pos: int) -> Option<(Option<Seq<char>>, int)> {
    if 0 <= pos < buf.len() && buf[pos] == CBOR_NULL {
        Some((None, pos + 1))
    } else {
        match parse_text_allow_controls(buf, pos, MAX_EVIDENCE_LEN as int) {
            Some((t, e)) => Some((Some(t), e)),
            None => None,
        }
    }
}

/// The readiness numbered `c`.
pub open spec fn readiness_of_code(c: u64) -> OfflineClaimReadiness {
    if c == 1 {
        OfflineClaimReadiness::Ready
    } else if c == 2 {
        OfflineClaimReadiness::NotAllowedByIssuancePolicy
    } else {
        OfflineClaimReadiness::MissingRequiredEvidence
    }
}

/// The disposition numbered `c`.
pub open spec fn disposition_of_code(c: u64) -> EabClaimDisposition {
    if c == 1 {
        EabClaimDisposition::Pending
    } else if c == 2 {
        EabClaimDisposition::Acknowledged
    } else if c == 3 {
        EabClaimDisposition::Rejected
    } else {
        EabClaimDisposition::Conflict
    }
}

/// The decision code numbered `c`.
pub open spec fn decision_of_code(c: u64) -> EabClaimDecisionCode {
    if c == 1 {
        EabClaimDecisionCode::PendingReview
    } else if c == 2 {
        EabClaimDecisionCode::Acknowledged
    } else if c == 3 {
        EabClaimDecisionCode::AlreadyAcknowledged
    } else if c == 4 {
        EabClaimDecisionCode::InvalidEnvelope
    } else if c == 5 {
        EabClaimDecisionCode::ClaimNotReady
    } else if c == 6 {
        EabClaimDecisionCode::ClaimIdPayloadMismatch
    } else if c == 7 {
        EabClaimDecisionCode::DefinitionNotFound
    } else if c == 8 {
        EabClaimDecisionCode::DefinitionIdentityMismatch
    } else if c == 9 {
        EabClaimDecisionCode::DefinitionDigestMismatch
    } else if c == 10 {
        EabClaimDecisionCode::IssuanceModeDisallowsClaim
    } else if c == 11 {
        EabClaimDecisionCode::EvidenceRequired
    } else if c == 12 {
        EabClaimDecisionCode::EventMismatch
    } else if c == 13 {
        EabClaimDecisionCode::ThresholdNotMet
    } else {
        EabClaimDecisionCode::RepeatableNotSupported
    }
}

/// An unsigned integer at `pos` between `low` and `high`.
pub open spec fn parse_code(buf: Seq<u8>, pos: int, low: u64, high: u64) -> Option<(u64, int)> {
    match parse_uint_max(buf, pos, 0xff) {
        Some((c, e)) => if low <= c <= high {
            Some((c, e))
        } else {
            None
        },
        None => None,
    }
}

pub open spec fn parse_record_a(buf: Seq<u8>, pos: int) -> Option<
    ((u32, Seq<char>, Seq<char>, Seq<char>, Seq<char>), int),
> {
    match parse_array_n(buf, pos, 21) {
        Some(p1) => match parse_uint_max(buf, p1, 0xffff_ffff) {
            Some((schema, p2)) => match parse_text(buf, p2, MAX_IDENTIFIER_LEN as int) {
                Some((local_award_id, p3)) => match parse_text(buf, p3, MAX_IDENTIFIER_LEN as int) {
                    Some((claim_id, p4)) => match parse_text(buf, p4, MAX_IDENTIFIER_LEN as int) {
                        Some((developer, p5)) => match parse_text(buf, p5, MAX_IDENTIFIER_LEN as int) {
                            Some((game, p6)) => Some(
                                ((schema as u32, local_award_id, claim_id, developer, game), p6),
                            ),
                            None => None,
                        },
                        None => None,
                    },
                    None => None,
                },
                None => None,
            },
            None => None,
        },
        None => None,
    }
}

pub open spec fn parse_record_b(buf: Seq<u8>, pos: int) -> Option<
    ((Seq<char>, u32, Seq<char>, Seq<char>, Seq<char>, Seq<char>), int),
> {
    match parse_text(buf, pos, MAX_IDENTIFIER_LEN as int) {
        Some((achievement_id, p1)) => match parse_uint_max(buf, p1, 0xffff_ffff) {
            Some((version, p2)) => match parse_text(buf, p2, MAX_DIGEST_LEN as int) {
                Some((digest, p3)) => match parse_text(buf, p3, MAX_IDENTIFIER_LEN as int) {
                    Some((local_player_id, p4)) => match parse_text(buf, p4, MAX_IDENTIFIER_LEN as int) {
                        Some((save_id, p5)) => match parse_text(buf, p5, MAX_IDENTIFIER_LEN as int) {
                            Some((installation_id, p6)) => Some(
                                (
                                    (
                                        achievement_id,
                                        version as u32,
                                        digest,
                                        local_player_id,
                                        save_id,
                                        installation_id,
                                    ),
                                    p6,
                                ),
                            ),
                            None => None,
                        },
                        None => None,
                    },
                    None => None,
                },
                None => None,
            },
            None => None,
        },
        None => None,
    }
}

pub open spec fn parse_record_c(buf: Seq<u8>, pos: int) -> Option<
    ((Seq<char>, u64, Seq<char>, Seq<char>, Seq<char>, Seq<char>), int),
> {
    match parse_text(buf, pos, MAX_IDENTIFIER_LEN as int) {
        Some((session_id, p1)) => match cbor_uint_at(buf, p1) {
            Some((client_sequence, p2)) => match parse_text(buf, p2, MAX_TIMESTAMP_LEN as int) {
                Some((earned, p3)) => match parse_text(buf, p3, MAX_TIMESTAMP_LEN as int) {
                    Some((recorded, p4)) => match parse_text(buf, p4, MAX_IDENTIFIER_LEN as int) {
                        Some((game_build, p5)) => match parse_text(buf, p5, MAX_IDENTIFIER_LEN as int) {
                            Some((event_key, p6)) => Some(
                                (
                                    (
                                        session_id,
                                        client_sequence,
                                        earned,
                                        recorded,
                                        game_build,
                                        event_key,
                                    ),
                                    p6,
                                ),
                            ),
                            None => None,
                        },
                        None => None,
                    },
                    None => None,
                },
                None => None,
            },
            None => None,
        },
        None => None,
    }
}

pub open spec fn parse_record_d(buf: Seq<u8>, pos: int) -> Option<
    ((u64, Option<Seq<char>>, OfflineClaimReadiness, Seq<char>), int),
> {
    match cbor_uint_at(buf, pos) {
        Some((event_value, p1)) => match parse_opt_evidence(buf, p1) {
            Some((evidence, p2)) => match parse_code(buf, p2, 1, 3) {
                Some((readiness, p3)) => match parse_text(buf, p3, MAX_DIGEST_LEN as int) {
                    Some((hash, p4)) => Some(
                        ((event_value, evidence, readiness_of_code(readiness), hash), p4),
                    ),
                    None => None,
                },
                None => None,
            },
            None => None,
        },
        None => None,
    }
}

/// A record at `pos`: its 21 items, each checked as it is read.
pub open spec fn parse_record(buf: Seq<u8>, pos: int) -> Option<(OfflineAchievementRecordView, int)> {
    match parse_record_a(buf, pos) {
        Some((a, p1)) => match parse_record_b(buf, p1) {
            Some((b, p2)) => match parse_record_c(buf, p2) {
                Some((c, p3)) => match parse_record_d(buf, p3) {
                    Some((d, p4)) => Some(
                        (
                            OfflineAchievementRecordView {
                                schema_version: a.0,
                                local_award_id: a.1,
                                claim_id: a.2,
                                developer: a.3,
                                game: a.4,
                                achievement_id: b.0,
                                version: b.1,
                                definition_digest: b.2,
                                local_player_id: b.3,
                                save_id: b.4,
                                installation_id: b.5,
                                session_id: c.0,
                                client_sequence: c.1,
                                earned_at_local: c.2,
                                recorded_at_local: c.3,
                                game_build: c.4,
                                event_key: c.5,
                                event_value: d.0,
                                evidence: d.1,
                                claim_readiness: d.2,
                                local_record_hash: d.3,
                            },
                            p4,
                        ),
                    ),
                    None => None,
                },
                None => None,
            },
            None => None,
        },
        None => None,
    }
}

/// An envelope at `pos`.
pub open spec fn parse_envelope(buf: Seq<u8>, pos: int) -> Option<(EabClaimEnvelopeView, int)> {
    match parse_array_n(buf, pos, 2) {
        Some(p1) => match parse_uint_max(buf, p1, 0xffff_ffff) {
            Some((schema, p2)) => match parse_record(buf, p2) {
                Some((record, p3)) => Some(
                    (EabClaimEnvelopeView { schema_version: schema as u32, record }, p3),
                ),
                None => None,
            },
            None => None,
        },
        None => None,
    }
}

/// `null`, or an award reference pair.
pub open spec fn parse_award(buf: Seq<u8>, pos: int) -> Option<(Option<EabAwardReferenceView>, int)> {
    if 0 <= pos < buf.len() && buf[pos] == CBOR_NULL {
        Some((None, pos + 1))
    } else {
        match parse_array_n(buf, pos, 2) {
            Some(p1) => match parse_text(buf, p1, MAX_IDENTIFIER_LEN as int) {
                Some((transaction_id, p2)) => match parse_text(buf, p2, MAX_DIGEST_LEN as int) {
                    Some((block_hash, p3)) => Some(
                        (Some(EabAwardReferenceView { transaction_id, block_hash }), p3),
                    ),
                    None => None,
                },
                None => None,
            },
            None => None,
        }
    }
}

pub open spec fn parse_ack_a(buf: Seq<u8>, pos: int) -> Option<
    ((u32, Seq<char>, Seq<char>, Seq<char>, Seq<char>), int),
> {
    match parse_array_n(buf, pos, 11) {
        Some(p1) => match parse_uint_max(buf, p1, 0xffff_ffff) {
            Some((schema, p2)) => match parse_text(buf, p2, MAX_IDENTIFIER_LEN as int) {
                Some((claim_id, p3)) => match parse_text(buf, p3, MAX_IDENTIFIER_LEN as int) {
                    Some((developer, p4)) => match parse_text(buf, p4, MAX_IDENTIFIER_LEN as int) {
                        Some((game, p5)) => match parse_text(buf, p5, MAX_IDENTIFIER_LEN as int) {
                            Some((achievement_id, p6)) => Some(
                                ((schema as u32, claim_id, developer, game, achievement_id), p6),
                            ),
                            None => None,
                        },
                        None => None,
                    },
                    None => None,
                },
                None => None,
            },
            None => None,
        },
        None => None,
    }
}

pub open spec fn parse_ack_b(buf: Seq<u8>, pos: int) -> Option<
    (
        (
            u32,
            EabClaimDisposition,
            EabClaimDecisionCode,
            Seq<char>,
            Option<Seq<char>>,
            Option<EabAwardReferenceView>,
        ),
        int,
    ),
> {
    match parse_uint_max(buf, pos, 0xffff_ffff) {
        Some((version, p1)) => match parse_code(buf, p1, 1, 4) {
            Some((disposition, p2)) => match parse_code(buf, p2, 1, 14) {
                Some((code, p3)) => match parse_text(buf, p3, MAX_TIMESTAMP_LEN as int) {
                    Some((first_observed_at, p4)) => match parse_opt_text(
                        buf,
                        p4,
                        MAX_TIMESTAMP_LEN as int,
                    ) {
                        Some((decided_at, p5)) => match parse_award(buf, p5) {
                            Some((award, p6)) => Some(
                                (
                                    (
                                        version as u32,
                                        disposition_of_code(disposition),
                                        decision_of_code(code),
                                        first_observed_at,
                                        decided_at,
                                        award,
                                    ),
                                    p6,
                                ),
                            ),
                            None => None,
                        },
                        None => None,
                    },
                    None => None,
                },
                None => None,
            },
            None => None,
        },
        None => None,
    }
}

/// An acknowledgement at `pos`.
pub open spec fn parse_ack(buf: Seq<u8>, pos: int) -> Option<(EabClaimAcknowledgementView, int)> {
    match parse_ack_a(buf, pos) {
        Some((a, p1)) => match parse_ack_b(buf, p1) {
            Some((b, p2)) => Some(
                (
                    EabClaimAcknowledgementView {
                        schema_version: a.0,
                        claim_id: a.1,
                        developer: a.2,
                        game: a.3,
                        achievement_id: a.4,
                        version: b.0,
                        disposition: b.1,
                        code: b.2,
                        first_observed_at: b.3,
                        decided_at: b.4,
                        award: b.5,
                    },
                    p2,
                ),
            ),
            None => None,
        },
        None => None,
    }
}

/// `null`, or an acknowledgement.
pub open spec fn parse_opt_ack(buf: Seq<u8>, pos: int) -> Option<(Option<EabClaimAcknowledgementView>, int)> {
    if 0 <= pos < buf.len() && buf[pos] == CBOR_NULL {
        Some((None, pos + 1))
    } else {
        match parse_ack(buf, pos) {
            Some((a, e)) => Some((Some(a), e)),
            None => None,
        }
    }
}

/// A CBOR boolean at `pos`.
pub open spec fn parse_bool(buf: Seq<u8>, pos: int) -> Option<(bool, int)> {
    if 0 <= pos < buf.len() && buf[pos] == 0xf5 {
        Some((true, pos + 1))
    } else if 0 <= pos < buf.len() && buf[pos] == 0xf4 {
        Some((false, pos + 1))
    } else {
        None
    }
}

/// The protocol error code numbered `c` (meaningful for `1..=4`).
pub open spec fn protocol_code_of(c: u64) -> ProtocolErrorCode {
    if c == 1 {
        ProtocolErrorCode::InvalidRequest
    } else if c == 2 {
        ProtocolErrorCode::AuthenticationFailed
    } else if c == 3 {
        ProtocolErrorCode::UnsupportedMessage
    } else {
        ProtocolErrorCode::Internal
    }
}

pub open spec fn parse_submit_request(buf: Seq<u8>) -> Option<(SecureMessageView, int)> {
    match parse_array_n(buf, 0, 3) {
            Some(p1) => match parse_bytes_n(buf, p1, 16) {
                Some((request_id, p2)) => match parse_text(buf, p2, MAX_SESSION_TOKEN_LEN as int) {
                    Some((session_token, p3)) => match parse_envelope(buf, p3) {
                        Some((envelope, p4)) => Some(
                            (
                                SecureMessageView::SubmitClaimRequest(
                                    SubmitClaimRequestView { request_id, session_token, envelope },
                                ),
                                p4,
                            ),
                        ),
                        None => None,
                    },
                    None => None,
                },
                None => None,
            },
            None => None,
        }
}

pub open spec fn parse_submit_response(buf: Seq<u8>) -> Option<(SecureMessageView, int)> {
    match parse_array_n(buf, 0, 2) {
            Some(p1) => match parse_bytes_n(buf, p1, 16) {
                Some((request_id, p2)) => match parse_ack(buf, p2) {
                    Some((acknowledgement, p3)) => Some(
                        (
                            SecureMessageView::SubmitClaimResponse(
                                SubmitClaimResponseView { request_id, acknowledgement },
                            ),
                            p3,
                        ),
                    ),
                    None => None,
                },
                None => None,
            },
            None => None,
        }
}

pub open spec fn parse_status_request(buf: Seq<u8>) -> Option<(SecureMessageView, int)> {
    match parse_array_n(buf, 0, 3) {
            Some(p1) => match parse_bytes_n(buf, p1, 16) {
                Some((request_id, p2)) => match parse_text(buf, p2, MAX_SESSION_TOKEN_LEN as int) {
                    Some((session_token, p3)) => match parse_text(
                        buf,
                        p3,
                        MAX_IDENTIFIER_LEN as int,
                    ) {
                        Some((claim_id, p4)) => Some(
                            (
                                SecureMessageView::ClaimStatusRequest(
                                    ClaimStatusRequestView { request_id, session_token, claim_id },
                                ),
                                p4,
                            ),
                        ),
                        None => None,
                    },
                    None => None,
                },
                None => None,
            },
            None => None,
        }
}

pub open spec fn parse_status_response(buf: Seq<u8>) -> Option<(SecureMessageView, int)> {
    match parse_array_n(buf, 0, 3) {
            Some(p1) => match parse_bytes_n(buf, p1, 16) {
                Some((request_id, p2)) => match parse_text(buf, p2, MAX_IDENTIFIER_LEN as int) {
                    Some((claim_id, p3)) => match parse_opt_ack(buf, p3) {
                        Some((acknowledgement, p4)) => Some(
                            (
                                SecureMessageView::ClaimStatusResponse(
                                    ClaimStatusResponseView { request_id, claim_id, acknowledgement },
                                ),
                                p4,
                            ),
                        ),
                        None => None,
                    },
                    None => None,
                },
                None => None,
            },
            None => None,
        }
}

pub open spec fn parse_protocol_error(buf: Seq<u8>) -> Option<(SecureMessageView, int)> {
    match parse_array_n(buf, 0, 4) {
            Some(p1) => match parse_bytes_n(buf, p1, 16) {
                Some((request_id, p2)) => match parse_uint_max(buf, p2, 0xffff) {
                    Some((code, p3)) => if 1 <= code <= 4 {
                        match parse_bool(buf, p3) {
                            Some((retryable, p4)) => match parse_text(
                                buf,
                                p4,
                                MAX_ERROR_DETAIL_LEN as int,
                            ) {
                                Some((detail, p5)) => Some(
                                    (
                                        SecureMessageView::ProtocolErrorResponse(
                                            ProtocolErrorResponseView {
                                                request_id,
                                                code: protocol_code_of(code),
                                                retryable,
                                                detail,
                                            },
                                        ),
                                        p5,
                                    ),
                                ),
                                None => None,
                            },
                            None => None,
                        }
                    } else {
                        None
                    },
                    None => None,
                },
                None => None,
            },
            None => None,
        }
}

/// The body of a message of kind `kind`: the message and where it ends.
pub open spec fn parse_secure_payload(kind: SecureMessageKind, buf: Seq<u8>) -> Option<
    (SecureMessageView, int),
> {
    match kind {
        SecureMessageKind::SubmitClaimRequest => parse_submit_request(buf),
        SecureMessageKind::SubmitClaimResponse => parse_submit_response(buf),
        SecureMessageKind::ClaimStatusRequest => parse_status_request(buf),
        SecureMessageKind::ClaimStatusResponse => parse_status_response(buf),
        SecureMessageKind::ProtocolErrorResponse => parse_protocol_error(buf),
    }
}

fn read_opt_text(input: &[u8], pos: usize, maximum: usize, field: &'static str) -> (r: Result<
    (Option<String>, usize),
    WireError,
>)
    ensures
        match r {
            Ok((v, e)) => parse_opt_text(input@, pos as int, maximum as int) == Some(
                (opt_view(v), e as int),
            ) && e <= input@.len(),
            Err(_) => parse_opt_text(input@, pos as int, maximum as int) is None,
        },
{
    if pos < input.len() && input[pos] == CBOR_NULL {
        match cbor_read_null(input, pos) {
            Ok(end) => Ok((None, end)),
            Err(message) => Err(WireError::CborDecode(message)),
        }
    } else {
        let (text, end) = read_text(input, pos, maximum, field)?;
        Ok((Some(text), end))
    }
}

fn read_opt_evidence(input: &[u8], pos: usize) -> (r: Result<(Option<String>, usize), WireError>)
    ensures
        match r {
            Ok((v, e)) => parse_opt_evidence(input@, pos as int) == Some((opt_view(v), e as int))
                && e <= input@.len(),
            Err(_) => parse_opt_evidence(input@, pos as int) is None,
        },
{
    if pos < input.len() && input[pos] == CBOR_NULL {
        match cbor_read_null(input, pos) {
            Ok(end) => Ok((None, end)),
            Err(message) => Err(WireError::CborDecode(message)),
        }
    } else {
        let (text, end) = read_text_allow_controls(input, pos, MAX_EVIDENCE_LEN, "evidence")?;
        Ok((Some(text), end))
    }
}

fn decode_record_a(input: &[u8], pos: usize) -> (r: Result<
    ((u32, String, String, String, String), usize),
    WireError,
>)
    ensures
        match r {
            Ok((v, e)) => parse_record_a(input@, pos as int) == Some(
                ((v.0, v.1@, v.2@, v.3@, v.4@), e as int),
            ) && e <= input@.len(),
            Err(_) => parse_record_a(input@, pos as int) is None,
        },
{
    let p1 = expect_array(input, pos, "offline achievement record", 21)?;
    let (schema, p2) = read_u32(input, p1)?;
    let (local_award_id, p3) = read_text(input, p2, MAX_IDENTIFIER_LEN, "local_award_id")?;
    let (claim_id, p4) = read_text(input, p3, MAX_IDENTIFIER_LEN, "claim_id")?;
    let (developer, p5) = read_text(input, p4, MAX_IDENTIFIER_LEN, "developer")?;
    let (game, p6) = read_text(input, p5, MAX_IDENTIFIER_LEN, "game")?;
    Ok(((schema, local_award_id, claim_id, developer, game), p6))
}

fn decode_record_b(input: &[u8], pos: usize) -> (r: Result<
    ((String, u32, String, String, String, String), usize),
    WireError,
>)
    ensures
        match r {
            Ok((v, e)) => parse_record_b(input@, pos as int) == Some(
                ((v.0@, v.1, v.2@, v.3@, v.4@, v.5@), e as int),
            ) && e <= input@.len(),
            Err(_) => parse_record_b(input@, pos as int) is None,
        },
{
    let (achievement_id, p1) = read_text(input, pos, MAX_IDENTIFIER_LEN, "achievement_id")?;
    let (version, p2) = read_u32(input, p1)?;
    let (digest, p3) = read_text(input, p2, MAX_DIGEST_LEN, "definition_digest")?;
    let (local_player_id, p4) = read_text(input, p3, MAX_IDENTIFIER_LEN, "local_player_id")?;
    let (save_id, p5) = read_text(input, p4, MAX_IDENTIFIER_LEN, "save_id")?;
    let (installation_id, p6) = read_text(input, p5, MAX_IDENTIFIER_LEN, "installation_id")?;
    Ok(((achievement_id, version, digest, local_player_id, save_id, installation_id), p6))
}

fn decode_record_c(input: &[u8], pos: usize) -> (r: Result<
    ((String, u64, String, String, String, String), usize),
    WireError,
>)
    ensures
        match r {
            Ok((v, e)) => parse_record_c(input@, pos as int) == Some(
                ((v.0@, v.1, v.2@, v.3@, v.4@, v.5@), e as int),
            ) && e <= input@.len(),
            Err(_) => parse_record_c(input@, pos as int) is None,
        },
{
    let (session_id, p1) = read_text(input, pos, MAX_IDENTIFIER_LEN, "session_id")?;
    let (client_sequence, p2) = read_u64(input, p1)?;
    let (earned, p3) = read_text(input, p2, MAX_TIMESTAMP_LEN, "earned_at_local")?;
    let (recorded, p4) = read_text(input, p3, MAX_TIMESTAMP_LEN, "recorded_at_local")?;
    let (game_build, p5) = read_text(input, p4, MAX_IDENTIFIER_LEN, "game_build")?;
    let (event_key, p6) = read_text(input, p5, MAX_IDENTIFIER_LEN, "event_key")?;
    Ok(((session_id, client_sequence, earned, recorded, game_build, event_key), p6))
}

fn decode_record_d(input: &[u8], pos: usize) -> (r: Result<
    ((u64, Option<String>, OfflineClaimReadiness, String), usize),
    WireError,
>)
    ensures
        match r {
            Ok((v, e)) => parse_record_d(input@, pos as int) == Some(
                ((v.0, opt_view(v.1), v.2, v.3@), e as int),
            ) && e <= input@.len(),
            Err(_) => parse_record_d(input@, pos as int) is None,
        },
{
    let (event_value, p1) = read_u64(input, pos)?;
    let (evidence, p2) = read_opt_evidence(input, p1)?;
    let (code, p3) = read_u8(input, p2)?;
    let readiness = readiness_from_u8(code)?;
    let (hash, p4) = read_text(input, p3, MAX_DIGEST_LEN, "local_record_hash")?;
    Ok(((event_value, evidence, readiness, hash), p4))
}

fn decode_record(input: &[u8], pos: usize) -> (r: Result<(OfflineAchievementRecord, usize), WireError>)
    ensures
        match r {
            Ok((v, e)) => parse_record(input@, pos as int) == Some((v@, e as int)) && e
                <= input@.len(),
            Err(_) => parse_record(input@, pos as int) is None,
        },
{
    let (a, p1) = decode_record_a(input, pos)?;
    let (b, p2) = decode_record_b(input, p1)?;
    let (c, p3) = decode_record_c(input, p2)?;
    let (d, p4) = decode_record_d(input, p3)?;
    let record = OfflineAchievementRecord {
        schema_version: a.0,
        local_award_id: a.1,
        claim_id: a.2,
        developer: a.3,
        game: a.4,
        achievement_id: b.0,
        version: b.1,
        definition_digest: b.2,
        local_player_id: b.3,
        save_id: b.4,
        installation_id: b.5,
        session_id: c.0,
        client_sequence: c.1,
        earned_at_local: c.2,
        recorded_at_local: c.3,
        game_build: c.4,
        event_key: c.5,
        event_value: d.0,
        evidence: d.1,
        claim_readiness: d.2,
        local_record_hash: d.3,
    };
    Ok((record, p4))
}

fn decode_envelope(input: &[u8], pos: usize) -> (r: Result<(EabClaimEnvelope, usize), WireError>)
    ensures
        match r {
            Ok((v, e)) => parse_envelope(input@, pos as int) == Some((v@, e as int)) && e
                <= input@.len(),
            Err(_) => parse_envelope(input@, pos as int) is None,
        },
{
    let p1 = expect_array(input, pos, "claim envelope", 2)?;
    let (schema_version, p2) = read_u32(input, p1)?;
    let (record, p3) = decode_record(input, p2)?;
    Ok((EabClaimEnvelope { schema_version, record }, p3))
}

fn decode_award(input: &[u8], pos: usize) -> (r: Result<(Option<EabAwardReference>, usize), WireError>)
    ensures
        match r {
            Ok((v, e)) => parse_award(input@, pos as int) == Some((award_view(v), e as int)) && e
                <= input@.len(),
            Err(_) => parse_award(input@, pos as int) is None,
        },
{
    if pos < input.len() && input[pos] == CBOR_NULL {
        match cbor_read_null(input, pos) {
            Ok(end) => Ok((None, end)),
            Err(message) => Err(WireError::CborDecode(message)),
        }
    } else {
        let p1 = expect_array(input, pos, "award reference", 2)?;
        let (transaction_id, p2) = read_text(input, p1, MAX_IDENTIFIER_LEN, "transaction_id")?;
        let (block_hash, p3) = read_text(input, p2, MAX_DIGEST_LEN, "block_hash")?;
        Ok((Some(EabAwardReference { transaction_id, block_hash }), p3))
    }
}

fn decode_ack_a(input: &[u8], pos: usize) -> (r: Result<
    ((u32, String, String, String, String), usize),
    WireError,
>)
    ensures
        match r {
            Ok((v, e)) => parse_ack_a(input@, pos as int) == Some(
                ((v.0, v.1@, v.2@, v.3@, v.4@), e as int),
            ) && e <= input@.len(),
            Err(_) => parse_ack_a(input@, pos as int) is None,
        },
{
    let p1 = expect_array(input, pos, "claim acknowledgement", 11)?;
    let (schema_version, p2) = read_u32(input, p1)?;
    let (claim_id, p3) = read_text(input, p2, MAX_IDENTIFIER_LEN, "claim_id")?;
    let (developer, p4) = read_text(input, p3, MAX_IDENTIFIER_LEN, "developer")?;
    let (game, p5) = read_text(input, p4, MAX_IDENTIFIER_LEN, "game")?;
    let (achievement_id, p6) = read_text(input, p5, MAX_IDENTIFIER_LEN, "achievement_id")?;
    Ok(((schema_version, claim_id, developer, game, achievement_id), p6))
}

fn decode_ack_b(input: &[u8], pos: usize) -> (r: Result<
    (
        (
            u32,
            EabClaimDisposition,
            EabClaimDecisionCode,
            String,
            Option<String>,
            Option<EabAwardReference>,
        ),
        usize,
    ),
    WireError,
>)
    ensures
        match r {
            Ok((v, e)) => parse_ack_b(input@, pos as int) == Some(
                ((v.0, v.1, v.2, v.3@, opt_view(v.4), award_view(v.5)), e as int),
            ) && e <= input@.len(),
            Err(_) => parse_ack_b(input@, pos as int) is None,
        },
{
    let (version, p1) = read_u32(input, pos)?;
    let (disposition_number, p2) = read_u8(input, p1)?;
    let disposition = disposition_from_u8(disposition_number)?;
    let (code_number, p3) = read_u8(input, p2)?;
    let code = decision_from_u8(code_number)?;
    let (first_observed_at, p4) = read_text(input, p3, MAX_TIMESTAMP_LEN, "first_observed_at")?;
    let (decided_at, p5) = read_opt_text(input, p4, MAX_TIMESTAMP_LEN, "decided_at")?;
    let (award, p6) = decode_award(input, p5)?;
    Ok(((version, disposition, code, first_observed_at, decided_at, award), p6))
}

fn decode_ack(input: &[u8], pos: usize) -> (r: Result<(EabClaimAcknowledgement, usize), WireError>)
    ensures
        match r {
            Ok((v, e)) => parse_ack(input@, pos as int) == Some((v@, e as int)) && e
                <= input@.len(),
            Err(_) => parse_ack(input@, pos as int) is None,
        },
{
    let (a, p1) = decode_ack_a(input, pos)?;
    let (b, p2) = decode_ack_b(input, p1)?;
    let ack = EabClaimAcknowledgement {
        schema_version: a.0,
        claim_id: a.1,
        developer: a.2,
        game: a.3,
        achievement_id: a.4,
        version: b.0,
        disposition: b.1,
        code: b.2,
        first_observed_at: b.3,
        decided_at: b.4,
        award: b.5,
    };
    Ok((ack, p2))
}

fn decode_opt_ack(input: &[u8], pos: usize) -> (r: Result<
    (Option<EabClaimAcknowledgement>, usize),
    WireError,
>)
    ensures
        match r {
            Ok((v, e)) => parse_opt_ack(input@, pos as int) == Some((ack_view(v), e as int)) && e
                <= input@.len(),
            Err(_) => parse_opt_ack(input@, pos as int) is None,
        },
{
    if pos < input.len() && input[pos] == CBOR_NULL {
        match cbor_read_null(input, pos) {
            Ok(end) => Ok((None, end)),
            Err(message) => Err(WireError::CborDecode(message)),
        }
    } else {
        let (ack, end) = decode_ack(input, pos)?;
        Ok((Some(ack), end))
    }
}

fn decode_submit_request(input: &[u8]) -> (r: Result<(SecureMessage, usize), WireError>)
    ensures
        match r {
            Ok((m, e)) => parse_submit_request(input@) == Some((m@, e as int)) && e <= input@.len(),
            Err(_) => parse_submit_request(input@) is None,
        },
{
            let p1 = expect_array(input, 0, "submit claim request", 3)?;
            let (request_id, p2) = read_bytes16(input, p1, "request_id")?;
            let (session_token, p3) = read_text(input, p2, MAX_SESSION_TOKEN_LEN, "session_token")?;
            let (envelope, p4) = decode_envelope(input, p3)?;
            Ok(
                (
                    SecureMessage::SubmitClaimRequest(
                        SubmitClaimRequest { request_id, session_token, envelope },
                    ),
                    p4,
                ),
            )
        }

fn decode_submit_response(input: &[u8]) -> (r: Result<(SecureMessage, usize), WireError>)
    ensures
        match r {
            Ok((m, e)) => parse_submit_response(input@) == Some((m@, e as int)) && e <= input@.len(),
            Err(_) => parse_submit_response(input@) is None,
        },
{
            let p1 = expect_array(input, 0, "submit claim response", 2)?;
            let (request_id, p2) = read_bytes16(input, p1, "request_id")?;
            let (acknowledgement, p3) = decode_ack(input, p2)?;
            Ok(
                (
                    SecureMessage::SubmitClaimResponse(
                        SubmitClaimResponse { request_id, acknowledgement },
                    ),
                    p3,
                ),
            )
        }

fn decode_status_request(input: &[u8]) -> (r: Result<(SecureMessage, usize), WireError>)
    ensures
        match r {
            Ok((m, e)) => parse_status_request(input@) == Some((m@, e as int)) && e <= input@.len(),
            Err(_) => parse_status_request(input@) is None,
        },
{
            let p1 = expect_array(input, 0, "claim status request", 3)?;
            let (request_id, p2) = read_bytes16(input, p1, "request_id")?;
            let (session_token, p3) = read_text(input, p2, MAX_SESSION_TOKEN_LEN, "session_token")?;
            let (claim_id, p4) = read_text(input, p3, MAX_IDENTIFIER_LEN, "claim_id")?;
            Ok(
                (
                    SecureMessage::ClaimStatusRequest(
                        ClaimStatusRequest { request_id, session_token, claim_id },
                    ),
                    p4,
                ),
            )
        }

fn decode_status_response(input: &[u8]) -> (r: Result<(SecureMessage, usize), WireError>)
    ensures
        match r {
            Ok((m, e)) => parse_status_response(input@) == Some((m@, e as int)) && e <= input@.len(),
            Err(_) => parse_status_response(input@) is None,
        },
{
            let p1 = expect_array(input, 0, "claim status response", 3)?;
            let (request_id, p2) = read_bytes16(input, p1, "request_id")?;
            let (claim_id, p3) = read_text(input, p2, MAX_IDENTIFIER_LEN, "claim_id")?;
            let (acknowledgement, p4) = decode_opt_ack(input, p3)?;
            Ok(
                (
                    SecureMessage::ClaimStatusResponse(
                        ClaimStatusResponse { request_id, claim_id, acknowledgement },
                    ),
                    p4,
                ),
            )
        }

fn decode_protocol_error(input: &[u8]) -> (r: Result<(SecureMessage, usize), WireError>)
    ensures
        match r {
            Ok((m, e)) => parse_protocol_error(input@) == Some((m@, e as int)) && e <= input@.len(),
            Err(_) => parse_protocol_error(input@) is None,
        },
{
            let p1 = expect_array(input, 0, "protocol error response", 4)?;
            let (request_id, p2) = read_bytes16(input, p1, "request_id")?;
            let (number, p3) = read_u16(input, p2)?;
            let code = ProtocolErrorCode::from_number(number)?;
            let (retryable, p4) = match cbor_read_bool(input, p3) {
                Ok(x) => x,
                Err(message) => {
                    return Err(WireError::CborDecode(message));
                },
            };
            let (detail, p5) = read_text(input, p4, MAX_ERROR_DETAIL_LEN, "error detail")?;
            Ok(
                (
                    SecureMessage::ProtocolErrorResponse(
                        ProtocolErrorResponse { request_id, code, retryable, detail },
                    ),
                    p5,
                ),
            )
        }

fn decode_payload(kind: SecureMessageKind, input: &[u8]) -> (r: Result<(SecureMessage, usize), WireError>)
    ensures
        match r {
            Ok((m, e)) => parse_secure_payload(kind, input@) == Some((m@, e as int)) && e
                <= input@.len(),
            Err(_) => parse_secure_payload(kind, input@) is None,
        },
{
    match kind {
        SecureMessageKind::SubmitClaimRequest => decode_submit_request(input),
        SecureMessageKind::SubmitClaimResponse => decode_submit_response(input),
        SecureMessageKind::ClaimStatusRequest => decode_status_request(input),
        SecureMessageKind::ClaimStatusResponse => decode_status_response(input),
        SecureMessageKind::ProtocolErrorResponse => decode_protocol_error(input),
    }
}


/// Four header bytes, most significant first.
pub open spec fn be32(b0: u8, b1: u8, b2: u8, b3: u8) -> int {
    ((b0 as int * 256 + b1 as int) * 256 + b2 as int) * 256 + b3 as int
}

/// The kind with header id `code` (meaningful for `1..=5`).
pub open spec fn secure_kind_from_code(code: int) -> SecureMessageKind {
    if code == 1 {
        SecureMessageKind::SubmitClaimRequest
    } else if code == 2 {
        SecureMessageKind::SubmitClaimResponse
    } else if code == 3 {
        SecureMessageKind::ClaimStatusRequest
    } else if code == 4 {
        SecureMessageKind::ClaimStatusResponse
    } else {
        SecureMessageKind::ProtocolErrorResponse
    }
}

/// The error that the header of `frame` raises, checked in order: size,
/// magic, version, kind, declared length.
pub open spec fn secure_header_fault(frame: Seq<u8>) -> Option<WireError> {
    if frame.len() > MAX_SECURE_FRAME_LEN {
        Some(WireError::FrameTooLarge { actual: frame.len() as usize, maximum: MAX_SECURE_FRAME_LEN })
    } else if frame.len() < SECURE_HEADER_LEN {
        Some(WireError::TruncatedHeader { actual: frame.len() as usize, required: SECURE_HEADER_LEN })
    } else if frame.subrange(0, 4) != secure_magic() {
        Some(WireError::InvalidMagic)
    } else if be16(frame[4], frame[5]) != SECURE_WIRE_VERSION {
        Some(WireError::UnsupportedWireVersion(be16(frame[4], frame[5]) as u16))
    } else if !(1 <= be16(frame[6], frame[7]) <= 5) {
        Some(WireError::UnknownMessageKind(be16(frame[6], frame[7]) as u16))
    } else if be32(frame[8], frame[9], frame[10], frame[11]) != frame.len() - SECURE_HEADER_LEN {
        Some(
            WireError::LengthMismatch {
                declared: be32(frame[8], frame[9], frame[10], frame[11]) as usize,
                actual: (frame.len() - SECURE_HEADER_LEN) as usize,
            },
        )
    } else {
        None
    }
}

/// The body of a frame whose header is sound.
pub open spec fn secure_body(frame: Seq<u8>) -> Option<(SecureMessageView, int)> {
    parse_secure_payload(
        secure_kind_from_code(be16(frame[6], frame[7])),
        frame.subrange(SECURE_HEADER_LEN as int, frame.len() as int),
    )
}

/// The message that a frame holds, if it decodes.
pub open spec fn secure_decoded(frame: Seq<u8>) -> Option<SecureMessageView> {
    if secure_header_fault(frame) is Some {
        None
    } else {
        match secure_body(frame) {
            Some((m, end)) => if end == frame.len() - SECURE_HEADER_LEN && secure_fault(m) is None {
                Some(m)
            } else {
                None
            },
            None => None,
        }
    }
}

impl SecureMessage {
    /// Decode one complete secure frame after enforcing its outer bound.
    pub fn decode(frame: &[u8]) -> (r: Result<SecureMessage, WireError>)
        ensures
            r is Ok <==> secure_decoded(frame@) is Some,
            r is Ok ==> secure_decoded(frame@) == Some(r->Ok_0@),
            secure_header_fault(frame@) is Some ==> r == Err::<SecureMessage, WireError>(
                secure_header_fault(frame@)->0,
            ),
            secure_header_fault(frame@) is None ==> match secure_body(frame@) {
                Some((m, end)) => if end != frame@.len() - SECURE_HEADER_LEN {
                    r == Err::<SecureMessage, WireError>(
                        WireError::TrailingPayloadBytes(
                            (frame@.len() - SECURE_HEADER_LEN - end) as usize,
                        ),
                    )
                } else {
                    match secure_fault(m) {
                        Some(f) => r == Err::<SecureMessage, WireError>(WireError::InvalidField(f)),
                        None => true,
                    }
                },
                None => true,
            },
    {
        if frame.len() > MAX_SECURE_FRAME_LEN {
            return Err(WireError::FrameTooLarge { actual: frame.len(), maximum: MAX_SECURE_FRAME_LEN });
        }
        if frame.len() < SECURE_HEADER_LEN {
            return Err(
                WireError::TruncatedHeader { actual: frame.len(), required: SECURE_HEADER_LEN },
            );
        }
        if frame[0] != 0x45 || frame[1] != 0x41 || frame[2] != 0x42 || frame[3] != 0x53 {
            assert(frame@.subrange(0, 4) != secure_magic()) by {
                if frame@.subrange(0, 4) == secure_magic() {
                    assert(frame@.subrange(0, 4)[0] == frame@[0]);
                    assert(frame@.subrange(0, 4)[1] == frame@[1]);
                    assert(frame@.subrange(0, 4)[2] == frame@[2]);
                    assert(frame@.subrange(0, 4)[3] == frame@[3]);
                }
            }
            return Err(WireError::InvalidMagic);
        }
        assert(frame@.subrange(0, 4) =~= secure_magic());
        let version = (frame[4] as u16) * 256 + frame[5] as u16;
        if version != SECURE_WIRE_VERSION {
            return Err(WireError::UnsupportedWireVersion(version));
        }
        let kind = SecureMessageKind::from_code((frame[6] as u16) * 256 + frame[7] as u16)?;
        let declared_u32 = (((frame[8] as u32) * 256 + frame[9] as u32) * 256 + frame[10] as u32)
            * 256 + frame[11] as u32;
        let declared = declared_u32 as usize;
        let actual = frame.len() - SECURE_HEADER_LEN;
        if declared_u32 as u64 != actual as u64 {
            return Err(WireError::LengthMismatch { declared, actual });
        }
        let payload = &frame[SECURE_HEADER_LEN..frame.len()];
        assert(kind == secure_kind_from_code(be16(frame@[6], frame@[7])));
        let (message, end) = decode_payload(kind, payload)?;
        if end != payload.len() {
            return Err(WireError::TrailingPayloadBytes(payload.len() - end));
        }
        message.validate()?;
        Ok(message)
    }
}


// ---------------------------------------------------------------------
// What the encoder writes, the decoder reads back.
// ---------------------------------------------------------------------

proof fn lemma_parse_opt_text(buf: Seq<u8>, pos: int, s: Option<Seq<char>>, maximum: int)
    requires
        placed(buf, pos, opt_text_item(s)),
        s is Some ==> text_ok(s->0, maximum),
        maximum <= 0xffff_ffff,
    ensures
        parse_opt_text(buf, pos, maximum) == Some((s, pos + opt_text_item(s).len())),
{
    match s {
        Some(t) => {
            lemma_parse_text(buf, pos, t, maximum);
            lemma_head_first_byte(MAJOR_TEXT, encode_utf8(t).len() as u64);
            assert(buf.subrange(pos, pos + cbor_text(t).len())[0] == buf[pos]);
        },
        None => {
            assert(buf.subrange(pos, pos + 1)[0] == buf[pos]);
        },
    }
}

proof fn lemma_parse_opt_evidence(buf: Seq<u8>, pos: int, s: Option<Seq<char>>)
    requires
        placed(buf, pos, opt_text_item(s)),
        s is Some ==> text_allow_controls_ok(s->0, MAX_EVIDENCE_LEN as int),
    ensures
        parse_opt_evidence(buf, pos) == Some((s, pos + opt_text_item(s).len())),
{
    match s {
        Some(t) => {
            lemma_parse_text_allow_controls(buf, pos, t, MAX_EVIDENCE_LEN as int);
            lemma_head_first_byte(MAJOR_TEXT, encode_utf8(t).len() as u64);
            assert(buf.subrange(pos, pos + cbor_text(t).len())[0] == buf[pos]);
        },
        None => {
            assert(buf.subrange(pos, pos + 1)[0] == buf[pos]);
        },
    }
}

proof fn lemma_parse_code(buf: Seq<u8>, pos: int, c: u64, low: u64, high: u64)
    requires
        placed(buf, pos, uint_item(c)),
        low <= c <= high,
        high <= 0xff,
    ensures
        parse_code(buf, pos, low, high) == Some((c, pos + uint_item(c).len())),
{
    lemma_parse_uint(buf, pos, c, 0xff);
}

proof fn lemma_parse_record_tail(buf: Seq<u8>, p: Seq<u8>, r: OfflineAchievementRecordView)
    requires
        starts_with(buf, record_items(p, r)),
        record_fault(r) is None,
    ensures
        starts_with(buf, record_head_items(p, r) + cbor_text(r.installation_id)),
        parse_record_c(buf, (record_head_items(p, r).len() + cbor_text(r.installation_id).len()) as int)
            == Some(
            (
                (
                    r.session_id,
                    r.client_sequence,
                    r.earned_at_local,
                    r.recorded_at_local,
                    r.game_build,
                    r.event_key,
                ),
                record_items(p, r).len() - cbor_text(r.local_record_hash).len() - uint_item(
                    readiness_code(r.claim_readiness) as u64,
                ).len() - opt_text_item(r.evidence).len() - uint_item(r.event_value).len(),
            ),
        ),
        parse_record_d(
            buf,
            record_items(p, r).len() - cbor_text(r.local_record_hash).len() - uint_item(
                readiness_code(r.claim_readiness) as u64,
            ).len() - opt_text_item(r.evidence).len() - uint_item(r.event_value).len(),
        ) == Some(
            (
                (r.event_value, r.evidence, r.claim_readiness, r.local_record_hash),
                record_items(p, r).len() as int,
            ),
        ),
        placed(buf, record_head_items(p, r).len() as int, cbor_text(r.installation_id)),
{
    let q11 = record_head_items(p, r);
    let q12 = q11 + cbor_text(r.installation_id);
    let q13 = q12 + cbor_text(r.session_id);
    let q14 = q13 + uint_item(r.client_sequence);
    let q15 = q14 + cbor_text(r.earned_at_local);
    let q16 = q15 + cbor_text(r.recorded_at_local);
    let q17 = q16 + cbor_text(r.game_build);
    let q18 = q17 + cbor_text(r.event_key);
    let q19 = q18 + uint_item(r.event_value);
    let q20 = q19 + opt_text_item(r.evidence);
    let q21 = q20 + uint_item(readiness_code(r.claim_readiness) as u64);
    lemma_starts_with_split(buf, q21, cbor_text(r.local_record_hash));
    lemma_starts_with_split(buf, q20, uint_item(readiness_code(r.claim_readiness) as u64));
    lemma_starts_with_split(buf, q19, opt_text_item(r.evidence));
    lemma_starts_with_split(buf, q18, uint_item(r.event_value));
    lemma_starts_with_split(buf, q17, cbor_text(r.event_key));
    lemma_starts_with_split(buf, q16, cbor_text(r.game_build));
    lemma_starts_with_split(buf, q15, cbor_text(r.recorded_at_local));
    lemma_starts_with_split(buf, q14, cbor_text(r.earned_at_local));
    lemma_starts_with_split(buf, q13, uint_item(r.client_sequence));
    lemma_starts_with_split(buf, q12, cbor_text(r.session_id));
    lemma_starts_with_split(buf, q11, cbor_text(r.installation_id));
    lemma_parse_text(buf, q12.len() as int, r.session_id, MAX_IDENTIFIER_LEN as int);
    lemma_parse_uint(buf, q13.len() as int, r.client_sequence, 0xffff_ffff_ffff_ffff);
    lemma_parse_text(buf, q14.len() as int, r.earned_at_local, MAX_TIMESTAMP_LEN as int);
    lemma_parse_text(buf, q15.len() as int, r.recorded_at_local, MAX_TIMESTAMP_LEN as int);
    lemma_parse_text(buf, q16.len() as int, r.game_build, MAX_IDENTIFIER_LEN as int);
    lemma_parse_text(buf, q17.len() as int, r.event_key, MAX_IDENTIFIER_LEN as int);
    lemma_parse_uint(buf, q18.len() as int, r.event_value, 0xffff_ffff_ffff_ffff);
    lemma_parse_opt_evidence(buf, q19.len() as int, r.evidence);
    lemma_parse_code(buf, q20.len() as int, readiness_code(r.claim_readiness) as u64, 1, 3);
    lemma_parse_text(buf, q21.len() as int, r.local_record_hash, MAX_DIGEST_LEN as int);
}

proof fn lemma_parse_record_head(buf: Seq<u8>, p: Seq<u8>, r: OfflineAchievementRecordView)
    requires
        starts_with(buf, record_head_items(p, r) + cbor_text(r.installation_id)),
        record_fault(r) is None,
    ensures
        starts_with(buf, p),
        parse_record_a(buf, p.len() as int) == Some(
            (
                (r.schema_version, r.local_award_id, r.claim_id, r.developer, r.game),
                (p.len() + cbor_head(MAJOR_ARRAY, 21).len() + uint_item(r.schema_version as u64).len()
                    + cbor_text(r.local_award_id).len() + cbor_text(r.claim_id).len() + cbor_text(
                    r.developer,
                ).len() + cbor_text(r.game).len()) as int,
            ),
        ),
        parse_record_b(
            buf,
            (p.len() + cbor_head(MAJOR_ARRAY, 21).len() + uint_item(r.schema_version as u64).len()
                + cbor_text(r.local_award_id).len() + cbor_text(r.claim_id).len() + cbor_text(
                r.developer,
            ).len() + cbor_text(r.game).len()) as int,
        ) == Some(
            (
                (
                    r.achievement_id,
                    r.version,
                    r.definition_digest,
                    r.local_player_id,
                    r.save_id,
                    r.installation_id,
                ),
                (record_head_items(p, r).len() + cbor_text(r.installation_id).len()) as int,
            ),
        ),
{
    let q1 = p + cbor_head(MAJOR_ARRAY, 21);
    let q2 = q1 + uint_item(r.schema_version as u64);
    let q3 = q2 + cbor_text(r.local_award_id);
    let q4 = q3 + cbor_text(r.claim_id);
    let q5 = q4 + cbor_text(r.developer);
    let q6 = q5 + cbor_text(r.game);
    let q7 = q6 + cbor_text(r.achievement_id);
    let q8 = q7 + uint_item(r.version as u64);
    let q9 = q8 + cbor_text(r.definition_digest);
    let q10 = q9 + cbor_text(r.local_player_id);
    let q11 = q10 + cbor_text(r.save_id);
    lemma_starts_with_split(buf, q11, cbor_text(r.installation_id));
    lemma_starts_with_split(buf, q10, cbor_text(r.save_id));
    lemma_starts_with_split(buf, q9, cbor_text(r.local_player_id));
    lemma_starts_with_split(buf, q8, cbor_text(r.definition_digest));
    lemma_starts_with_split(buf, q7, uint_item(r.version as u64));
    lemma_starts_with_split(buf, q6, cbor_text(r.achievement_id));
    lemma_starts_with_split(buf, q5, cbor_text(r.game));
    lemma_starts_with_split(buf, q4, cbor_text(r.developer));
    lemma_starts_with_split(buf, q3, cbor_text(r.claim_id));
    lemma_starts_with_split(buf, q2, cbor_text(r.local_award_id));
    lemma_starts_with_split(buf, q1, uint_item(r.schema_version as u64));
    lemma_starts_with_split(buf, p, cbor_head(MAJOR_ARRAY, 21));
    lemma_parse_array(buf, p.len() as int, 21);
    lemma_parse_uint(buf, q1.len() as int, r.schema_version as u64, 0xffff_ffff);
    lemma_parse_text(buf, q2.len() as int, r.local_award_id, MAX_IDENTIFIER_LEN as int);
    lemma_parse_text(buf, q3.len() as int, r.claim_id, MAX_IDENTIFIER_LEN as int);
    lemma_parse_text(buf, q4.len() as int, r.developer, MAX_IDENTIFIER_LEN as int);
    lemma_parse_text(buf, q5.len() as int, r.game, MAX_IDENTIFIER_LEN as int);
    lemma_parse_text(buf, q6.len() as int, r.achievement_id, MAX_IDENTIFIER_LEN as int);
    lemma_parse_uint(buf, q7.len() as int, r.version as u64, 0xffff_ffff);
    lemma_parse_text(buf, q8.len() as int, r.definition_digest, MAX_DIGEST_LEN as int);
    lemma_parse_text(buf, q9.len() as int, r.local_player_id, MAX_IDENTIFIER_LEN as int);
    lemma_parse_text(buf, q10.len() as int, r.save_id, MAX_IDENTIFIER_LEN as int);
    lemma_parse_text(buf, q11.len() as int, r.installation_id, MAX_IDENTIFIER_LEN as int);
}

proof fn lemma_parse_record(buf: Seq<u8>, p: Seq<u8>, r: OfflineAchievementRecordView)
    requires
        starts_with(buf, record_items(p, r)),
        record_fault(r) is None,
    ensures
        starts_with(buf, p),
        parse_record(buf, p.len() as int) == Some((r, record_items(p, r).len() as int)),
{
    lemma_parse_record_tail(buf, p, r);
    lemma_parse_record_head(buf, p, r);
}


proof fn lemma_parse_envelope(buf: Seq<u8>, p: Seq<u8>, e: EabClaimEnvelopeView)
    requires
        starts_with(buf, envelope_items(p, e)),
        record_fault(e.record) is None,
    ensures
        starts_with(buf, p),
        parse_envelope(buf, p.len() as int) == Some((e, envelope_items(p, e).len() as int)),
{
    let q1 = p + cbor_head(MAJOR_ARRAY, 2);
    let q2 = q1 + uint_item(e.schema_version as u64);
    lemma_parse_record(buf, q2, e.record);
    lemma_starts_with_split(buf, q1, uint_item(e.schema_version as u64));
    lemma_starts_with_split(buf, p, cbor_head(MAJOR_ARRAY, 2));
    lemma_parse_array(buf, p.len() as int, 2);
    lemma_parse_uint(buf, q1.len() as int, e.schema_version as u64, 0xffff_ffff);
}

proof fn lemma_parse_award(buf: Seq<u8>, p: Seq<u8>, a: Option<EabAwardReferenceView>)
    requires
        starts_with(buf, award_items(p, a)),
        a is Some ==> text_ok(a->0.transaction_id, MAX_IDENTIFIER_LEN as int) && text_ok(
            a->0.block_hash,
            MAX_DIGEST_LEN as int,
        ),
    ensures
        starts_with(buf, p),
        parse_award(buf, p.len() as int) == Some((a, award_items(p, a).len() as int)),
{
    match a {
        Some(v) => {
            let q1 = p + cbor_head(MAJOR_ARRAY, 2);
            let q2 = q1 + cbor_text(v.transaction_id);
            lemma_starts_with_split(buf, q2, cbor_text(v.block_hash));
            lemma_starts_with_split(buf, q1, cbor_text(v.transaction_id));
            lemma_starts_with_split(buf, p, cbor_head(MAJOR_ARRAY, 2));
            lemma_parse_array(buf, p.len() as int, 2);
            lemma_head_first_byte(MAJOR_ARRAY, 2);
            assert(buf.subrange(p.len() as int, (p.len() + cbor_head(MAJOR_ARRAY, 2).len()) as int)[0]
                == buf[p.len() as int]);
            lemma_parse_text(buf, q1.len() as int, v.transaction_id, MAX_IDENTIFIER_LEN as int);
            lemma_parse_text(buf, q2.len() as int, v.block_hash, MAX_DIGEST_LEN as int);
        },
        None => {
            lemma_starts_with_split(buf, p, seq![CBOR_NULL]);
            assert(buf.subrange(p.len() as int, p.len() + 1int)[0] == buf[p.len() as int]);
        },
    }
}

proof fn lemma_parse_ack(buf: Seq<u8>, p: Seq<u8>, a: EabClaimAcknowledgementView)
    requires
        starts_with(buf, ack_items(p, a)),
        ack_fault(a) is None,
    ensures
        starts_with(buf, p),
        parse_ack(buf, p.len() as int) == Some((a, ack_items(p, a).len() as int)),
{
    let q1 = p + cbor_head(MAJOR_ARRAY, 11);
    let q2 = q1 + uint_item(a.schema_version as u64);
    let q3 = q2 + cbor_text(a.claim_id);
    let q4 = q3 + cbor_text(a.developer);
    let q5 = q4 + cbor_text(a.game);
    let q6 = q5 + cbor_text(a.achievement_id);
    let q7 = q6 + uint_item(a.version as u64);
    let q8 = q7 + uint_item(disposition_code(a.disposition) as u64);
    let q9 = q8 + uint_item(decision_code(a.code) as u64);
    let q10 = q9 + cbor_text(a.first_observed_at);
    let q11 = q10 + opt_text_item(a.decided_at);
    lemma_parse_award(buf, q11, a.award);
    lemma_starts_with_split(buf, q10, opt_text_item(a.decided_at));
    lemma_starts_with_split(buf, q9, cbor_text(a.first_observed_at));
    lemma_starts_with_split(buf, q8, uint_item(decision_code(a.code) as u64));
    lemma_starts_with_split(buf, q7, uint_item(disposition_code(a.disposition) as u64));
    lemma_starts_with_split(buf, q6, uint_item(a.version as u64));
    lemma_starts_with_split(buf, q5, cbor_text(a.achievement_id));
    lemma_starts_with_split(buf, q4, cbor_text(a.game));
    lemma_starts_with_split(buf, q3, cbor_text(a.developer));
    lemma_starts_with_split(buf, q2, cbor_text(a.claim_id));
    lemma_starts_with_split(buf, q1, uint_item(a.schema_version as u64));
    lemma_starts_with_split(buf, p, cbor_head(MAJOR_ARRAY, 11));
    lemma_parse_array(buf, p.len() as int, 11);
    lemma_parse_uint(buf, q1.len() as int, a.schema_version as u64, 0xffff_ffff);
    lemma_parse_text(buf, q2.len() as int, a.claim_id, MAX_IDENTIFIER_LEN as int);
    lemma_parse_text(buf, q3.len() as int, a.developer, MAX_IDENTIFIER_LEN as int);
    lemma_parse_text(buf, q4.len() as int, a.game, MAX_IDENTIFIER_LEN as int);
    lemma_parse_text(buf, q5.len() as int, a.achievement_id, MAX_IDENTIFIER_LEN as int);
    lemma_parse_uint(buf, q6.len() as int, a.version as u64, 0xffff_ffff);
    lemma_parse_code(buf, q7.len() as int, disposition_code(a.disposition) as u64, 1, 4);
    lemma_parse_code(buf, q8.len() as int, decision_code(a.code) as u64, 1, 14);
    lemma_parse_text(buf, q9.len() as int, a.first_observed_at, MAX_TIMESTAMP_LEN as int);
    lemma_parse_opt_text(buf, q10.len() as int, a.decided_at, MAX_TIMESTAMP_LEN as int);
}


/// The three items that open a request: the array head, the request id
/// and a text.
proof fn lemma_parse_opening(buf: Seq<u8>, n: u64, rid: Seq<u8>, t: Seq<char>, maximum: int)
    requires
        starts_with(buf, Seq::empty() + cbor_head(MAJOR_ARRAY, n) + cbor_bytes(rid) + cbor_text(t)),
        rid.len() == 16,
        text_ok(t, maximum),
        maximum <= 0xffff_ffff,
    ensures
        parse_array_n(buf, 0, n) == Some(cbor_head(MAJOR_ARRAY, n).len() as int),
        parse_bytes_n(buf, cbor_head(MAJOR_ARRAY, n).len() as int, 16) == Some(
            (rid, (cbor_head(MAJOR_ARRAY, n).len() + cbor_bytes(rid).len()) as int),
        ),
        parse_text(buf, (cbor_head(MAJOR_ARRAY, n).len() + cbor_bytes(rid).len()) as int, maximum)
            == Some(
            (
                t,
                (cbor_head(MAJOR_ARRAY, n).len() + cbor_bytes(rid).len() + cbor_text(t).len()) as int,
            ),
        ),
{
    let q1 = Seq::<u8>::empty() + cbor_head(MAJOR_ARRAY, n);
    let q2 = q1 + cbor_bytes(rid);
    lemma_starts_with_split(buf, q2, cbor_text(t));
    lemma_starts_with_split(buf, q1, cbor_bytes(rid));
    lemma_starts_with_split(buf, Seq::empty(), cbor_head(MAJOR_ARRAY, n));
    lemma_parse_array(buf, 0, n);
    lemma_parse_bytes(buf, q1.len() as int, rid);
    lemma_parse_text(buf, q2.len() as int, t, maximum);
}

proof fn lemma_whole(buf: Seq<u8>)
    ensures
        starts_with(buf, buf),
{
    assert(buf.subrange(0, buf.len() as int) =~= buf);
}

proof fn lemma_submit_request_parses(v: SubmitClaimRequestView)
    requires
        v.request_id.len() == 16,
        text_ok(v.session_token, MAX_SESSION_TOKEN_LEN as int),
        record_fault(v.envelope.record) is None,
    ensures
        parse_submit_request(submit_request_payload(v)) == Some(
            (SecureMessageView::SubmitClaimRequest(v), submit_request_payload(v).len() as int),
        ),
{
    let buf = submit_request_payload(v);
    lemma_whole(buf);
    let p = Seq::empty() + cbor_head(MAJOR_ARRAY, 3) + cbor_bytes(v.request_id) + cbor_text(
        v.session_token,
    );
    lemma_parse_envelope(buf, p, v.envelope);
    lemma_parse_opening(buf, 3, v.request_id, v.session_token, MAX_SESSION_TOKEN_LEN as int);
}

proof fn lemma_submit_response_parses(v: SubmitClaimResponseView)
    requires
        v.request_id.len() == 16,
        ack_fault(v.acknowledgement) is None,
    ensures
        parse_submit_response(submit_response_payload(v)) == Some(
            (SecureMessageView::SubmitClaimResponse(v), submit_response_payload(v).len() as int),
        ),
{
    let buf = submit_response_payload(v);
    lemma_whole(buf);
    let p = Seq::empty() + cbor_head(MAJOR_ARRAY, 2) + cbor_bytes(v.request_id);
    lemma_parse_ack(buf, p, v.acknowledgement);
    lemma_starts_with_split(buf, Seq::empty() + cbor_head(MAJOR_ARRAY, 2), cbor_bytes(v.request_id));
    lemma_starts_with_split(buf, Seq::empty(), cbor_head(MAJOR_ARRAY, 2));
    lemma_parse_array(buf, 0, 2);
    lemma_parse_bytes(buf, cbor_head(MAJOR_ARRAY, 2).len() as int, v.request_id);
}

proof fn lemma_status_request_parses(v: ClaimStatusRequestView)
    requires
        v.request_id.len() == 16,
        text_ok(v.session_token, MAX_SESSION_TOKEN_LEN as int),
        text_ok(v.claim_id, MAX_IDENTIFIER_LEN as int),
    ensures
        parse_status_request(status_request_payload(v)) == Some(
            (SecureMessageView::ClaimStatusRequest(v), status_request_payload(v).len() as int),
        ),
{
    let buf = status_request_payload(v);
    lemma_whole(buf);
    let p = Seq::empty() + cbor_head(MAJOR_ARRAY, 3) + cbor_bytes(v.request_id) + cbor_text(
        v.session_token,
    );
    lemma_starts_with_split(buf, p, cbor_text(v.claim_id));
    lemma_parse_opening(buf, 3, v.request_id, v.session_token, MAX_SESSION_TOKEN_LEN as int);
    lemma_parse_text(buf, p.len() as int, v.claim_id, MAX_IDENTIFIER_LEN as int);
}

proof fn lemma_status_response_parses(v: ClaimStatusResponseView)
    requires
        v.request_id.len() == 16,
        text_ok(v.claim_id, MAX_IDENTIFIER_LEN as int),
        v.acknowledgement is Some ==> ack_fault(v.acknowledgement->0) is None,
    ensures
        parse_status_response(status_response_payload(v)) == Some(
            (SecureMessageView::ClaimStatusResponse(v), status_response_payload(v).len() as int),
        ),
{
    let buf = status_response_payload(v);
    lemma_whole(buf);
    let p = Seq::empty() + cbor_head(MAJOR_ARRAY, 3) + cbor_bytes(v.request_id) + cbor_text(
        v.claim_id,
    );
    match v.acknowledgement {
        Some(a) => {
            lemma_parse_ack(buf, p, a);
            lemma_head_first_byte(MAJOR_ARRAY, 11);
            let before = p + cbor_head(MAJOR_ARRAY, 11) + uint_item(a.schema_version as u64)
                + cbor_text(a.claim_id) + cbor_text(a.developer) + cbor_text(a.game) + cbor_text(
                a.achievement_id,
            ) + uint_item(a.version as u64) + uint_item(disposition_code(a.disposition) as u64)
                + uint_item(decision_code(a.code) as u64) + cbor_text(a.first_observed_at)
                + opt_text_item(a.decided_at);
            assert(buf[p.len() as int] == cbor_head(MAJOR_ARRAY, 11)[0]) by {
                assert(buf == award_items(before, a.award));
                assert(buf[p.len() as int] == before[p.len() as int]);
            }
        },
        None => {
            lemma_starts_with_split(buf, p, seq![CBOR_NULL]);
            assert(buf[p.len() as int] == CBOR_NULL);
        },
    }
    lemma_parse_opening(buf, 3, v.request_id, v.claim_id, MAX_IDENTIFIER_LEN as int);
}

proof fn lemma_protocol_error_parses(v: ProtocolErrorResponseView)
    requires
        v.request_id.len() == 16,
        text_ok(v.detail, MAX_ERROR_DETAIL_LEN as int),
    ensures
        parse_protocol_error(protocol_error_payload(v)) == Some(
            (SecureMessageView::ProtocolErrorResponse(v), protocol_error_payload(v).len() as int),
        ),
{
    let buf = protocol_error_payload(v);
    lemma_whole(buf);
    let q1 = Seq::<u8>::empty() + cbor_head(MAJOR_ARRAY, 4);
    let q2 = q1 + cbor_bytes(v.request_id);
    let q3 = q2 + uint_item(v.code.number_of() as u64);
    let q4 = q3 + bool_item(v.retryable);
    lemma_starts_with_split(buf, q4, cbor_text(v.detail));
    lemma_starts_with_split(buf, q3, bool_item(v.retryable));
    lemma_starts_with_split(buf, q2, uint_item(v.code.number_of() as u64));
    lemma_starts_with_split(buf, q1, cbor_bytes(v.request_id));
    lemma_starts_with_split(buf, Seq::empty(), cbor_head(MAJOR_ARRAY, 4));
    lemma_parse_array(buf, 0, 4);
    lemma_parse_bytes(buf, q1.len() as int, v.request_id);
    lemma_parse_uint(buf, q2.len() as int, v.code.number_of() as u64, 0xffff);
    assert(buf[q3.len() as int] == bool_item(v.retryable)[0]) by {
        assert(buf.subrange(q3.len() as int, q3.len() + 1int)[0] == buf[q3.len() as int]);
    }
    lemma_parse_text(buf, q4.len() as int, v.detail, MAX_ERROR_DETAIL_LEN as int);
}

/// The payload of a valid message parses back to it, to its last byte.
proof fn lemma_secure_payload_parses(m: SecureMessageView)
    requires
        secure_fault(m) is None,
        secure_request_id_of(m).len() == 16,
    ensures
        parse_secure_payload(secure_kind_of(m), secure_payload(m)) == Some(
            (m, secure_payload(m).len() as int),
        ),
{
    reveal(secure_payload);
    match m {
        SecureMessageView::SubmitClaimRequest(v) => lemma_submit_request_parses(v),
        SecureMessageView::SubmitClaimResponse(v) => lemma_submit_response_parses(v),
        SecureMessageView::ClaimStatusRequest(v) => lemma_status_request_parses(v),
        SecureMessageView::ClaimStatusResponse(v) => lemma_status_response_parses(v),
        SecureMessageView::ProtocolErrorResponse(v) => lemma_protocol_error_parses(v),
    }
}

/// The header of an encoded frame is sound and the body is the payload.
proof fn lemma_secure_frame_header(m: SecureMessageView)
    requires
        secure_fault(m) is None,
        secure_request_id_of(m).len() == 16,
    ensures
        secure_header_fault(secure_frame(m)) is None,
        secure_frame(m).subrange(SECURE_HEADER_LEN as int, secure_frame(m).len() as int)
            == secure_payload(m),
        secure_kind_from_code(be16(secure_frame(m)[6], secure_frame(m)[7])) == secure_kind_of(m),
{
    lemma_secure_payload_fits(m);
    let payload = secure_payload(m);
    let frame = secure_frame(m);
    let n = payload.len() as u32;
    let header = secure_magic() + u16_be(SECURE_WIRE_VERSION) + u16_be(secure_kind_of(m).code_of())
        + u32_be(n);
    assert(frame == header + payload);
    assert(header.len() == 12);
    assert(frame.subrange(0, 4) =~= secure_magic());
    assert(frame[4] == header[4] && frame[5] == header[5]);
    assert(frame[6] == header[6] && frame[7] == header[7]);
    assert(frame[8] == header[8] && frame[9] == header[9]);
    assert(frame[10] == header[10] && frame[11] == header[11]);
    assert(be32(frame[8], frame[9], frame[10], frame[11]) == n) by {
        assert(n < 0x1_0000);
        assert(n / 0x100_0000 == 0);
        assert((n / 0x1_0000) % 256 == 0);
        assert(((n / 256) % 256) * 256 + n % 256 == n);
    }
    assert(frame.subrange(SECURE_HEADER_LEN as int, frame.len() as int) =~= payload);
}

/// Decoding the frame that `encode` produces for a valid message gives
/// that message back.
pub proof fn lemma_secure_roundtrip(m: SecureMessage)
    requires
        secure_fault(m@) is None,
    ensures
        secure_decoded(secure_frame(m@)) == Some(m@),
{
    let v = m@;
    assert(secure_request_id_of(v).len() == 16);
    lemma_secure_frame_header(v);
    lemma_secure_payload_parses(v);
    lemma_secure_payload_fits(v);
}

} // verus!
