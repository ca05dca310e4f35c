//! Serving canonical claim requests that arrive over the authenticated
//! secure channel: which request needs what, and how each outcome is
//! answered. Authenticating the session and running the service are the
//! caller's; the player is always the one the session names, never one the
//! envelope carries.

use vstd::prelude::*;
use crate::claim::{EabClaimAcknowledgement, EabClaimEnvelope, EabClaimEnvelopeView};
use crate::profile::{
    definition_view, LedgerStorage, PlayerProfileService, ProfileError, ProfileErrorKind,
};
use crate::registry::{registry_key, AchievementRegistry};
use crate::secure::{
    ack_view, ClaimStatusResponse, ClaimStatusResponseView, ProtocolErrorCode,
    ProtocolErrorResponse, ProtocolErrorResponseView, SecureMessage, SecureMessageView,
    SubmitClaimResponse, SubmitClaimResponseView, secure_request_id_of,
};

verus! {

/// What serving a request needs next.
pub enum SecureClaimStep {
    /// Answer at once.
    Reply(SecureMessage),
    /// Authenticate the session, then acknowledge the envelope for the
    /// session's player.
    Submit { request_id: [u8; 16], session_token: String, envelope: EabClaimEnvelope },
    /// Authenticate the session, then look up the acknowledgement of the
    /// session player's claim.
    Status { request_id: [u8; 16], session_token: String, claim_id: String },
}

/// A protocol error answer.
pub open spec fn protocol_error_view(
    request_id: Seq<u8>,
    code: ProtocolErrorCode,
    retryable: bool,
    detail: Seq<char>,
) -> SecureMessageView {
    SecureMessageView::ProtocolErrorResponse(
        ProtocolErrorResponseView { request_id, code, retryable, detail },
    )
}

/// The protocol error answer to request `request_id`.
pub fn protocol_error(request_id: [u8; 16], code: ProtocolErrorCode, retryable: bool, detail: &str) -> (r:
    SecureMessage)
    ensures
        r@ == protocol_error_view(request_id@, code, retryable, detail@),
{
    SecureMessage::ProtocolErrorResponse(
        ProtocolErrorResponse { request_id, code, retryable, detail: String::from_str(detail) },
    )
}

/// Which step a request needs: claim submissions and status lookups go on
/// to authentication; any other message is answered as unsupported.
pub fn secure_claim_step(request: SecureMessage) -> (r: SecureClaimStep)
    ensures
        match request@ {
            SecureMessageView::SubmitClaimRequest(m) => r matches SecureClaimStep::Submit {
                request_id,
                session_token,
                envelope,
            } && request_id@ == m.request_id && session_token@ == m.session_token && envelope@
                == m.envelope,
            SecureMessageView::ClaimStatusRequest(m) => r matches SecureClaimStep::Status {
                request_id,
                session_token,
                claim_id,
            } && request_id@ == m.request_id && session_token@ == m.session_token && claim_id@
                == m.claim_id,
            other => r matches SecureClaimStep::Reply(reply) && reply@ == protocol_error_view(
                secure_request_id_of(other),
                ProtocolErrorCode::UnsupportedMessage,
                false,
                "request message required"@,
            ),
        },
{
    match request {
        SecureMessage::SubmitClaimRequest(request) => SecureClaimStep::Submit {
            request_id: request.request_id,
            session_token: request.session_token,
            envelope: request.envelope,
        },
        SecureMessage::ClaimStatusRequest(request) => SecureClaimStep::Status {
            request_id: request.request_id,
            session_token: request.session_token,
            claim_id: request.claim_id,
        },
        unexpected => {
            let request_id = unexpected.request_id();
            SecureClaimStep::Reply(
                protocol_error(
                    request_id,
                    ProtocolErrorCode::UnsupportedMessage,
                    false,
                    "request message required",
                ),
            )
        },
    }
}

/// The answer to a request whose session names no player.
pub fn authentication_failed(request_id: [u8; 16]) -> (r: SecureMessage)
    ensures
        r@ == protocol_error_view(
            request_id@,
            ProtocolErrorCode::AuthenticationFailed,
            false,
            "authentication failed"@,
        ),
{
    protocol_error(request_id, ProtocolErrorCode::AuthenticationFailed, false, "authentication failed")
}

/// What serving a request does once the session it carries was looked up.
pub enum SessionedClaimAction {
    /// Answer at once.
    Reply(SecureMessage),
    /// Acknowledge the envelope for the session's player.
    Submit { request_id: [u8; 16], player_id: String, envelope: EabClaimEnvelope },
    /// Look up the acknowledgement of the session player's claim.
    Status { request_id: [u8; 16], player_id: String, claim_id: String },
}

/// The action for `step` given the player its session names, if any: a
/// request whose session names no player is refused as unauthenticated,
/// and the player is always the session's.
pub fn claim_step_after_session(step: SecureClaimStep, session_player: Option<String>) -> (r:
    SessionedClaimAction)
    ensures
        match step {
            SecureClaimStep::Reply(m) => r matches SessionedClaimAction::Reply(x) && x@ == m@,
            SecureClaimStep::Submit { request_id, envelope, .. } => match session_player {
                None => r matches SessionedClaimAction::Reply(x) && x@ == protocol_error_view(
                    request_id@,
                    ProtocolErrorCode::AuthenticationFailed,
                    false,
                    "authentication failed"@,
                ),
                Some(p) => r matches SessionedClaimAction::Submit { request_id: rid, player_id, envelope: e }
                    && rid == request_id && player_id@ == p@ && e@ == envelope@,
            },
            SecureClaimStep::Status { request_id, claim_id, .. } => match session_player {
                None => r matches SessionedClaimAction::Reply(x) && x@ == protocol_error_view(
                    request_id@,
                    ProtocolErrorCode::AuthenticationFailed,
                    false,
                    "authentication failed"@,
                ),
                Some(p) => r matches SessionedClaimAction::Status { request_id: rid, player_id, claim_id: c }
                    && rid == request_id && player_id@ == p@ && c@ == claim_id@,
            },
        },
{
    match step {
        SecureClaimStep::Reply(m) => SessionedClaimAction::Reply(m),
        SecureClaimStep::Submit { request_id, session_token: _, envelope } => match session_player {
            None => SessionedClaimAction::Reply(authentication_failed(request_id)),
            Some(player_id) => SessionedClaimAction::Submit { request_id, player_id, envelope },
        },
        SecureClaimStep::Status { request_id, session_token: _, claim_id } => match session_player {
            None => SessionedClaimAction::Reply(authentication_failed(request_id)),
            Some(player_id) => SessionedClaimAction::Status { request_id, player_id, claim_id },
        },
    }
}

/// The answer to a claim submission: the acknowledgement, or a refusal
/// where the player has no profile, or a retryable internal error.
pub fn submit_claim_reply(request_id: [u8; 16], result: Result<EabClaimAcknowledgement, ProfileError>) -> (r:
    SecureMessage)
    ensures
        match result {
            Ok(a) => r@ == SecureMessageView::SubmitClaimResponse(
                SubmitClaimResponseView { request_id: request_id@, acknowledgement: a@ },
            ),
            Err(e) => if e.kind == ProfileErrorKind::NotFound {
                r@ == protocol_error_view(
                    request_id@,
                    ProtocolErrorCode::InvalidRequest,
                    false,
                    "player profile not found"@,
                )
            } else {
                r@ == protocol_error_view(
                    request_id@,
                    ProtocolErrorCode::Internal,
                    true,
                    "claim service unavailable"@,
                )
            },
        },
{
    match result {
        Ok(acknowledgement) => SecureMessage::SubmitClaimResponse(
            SubmitClaimResponse { request_id, acknowledgement },
        ),
        Err(error) => if error.kind == ProfileErrorKind::NotFound {
            protocol_error(
                request_id,
                ProtocolErrorCode::InvalidRequest,
                false,
                "player profile not found",
            )
        } else {
            protocol_error(request_id, ProtocolErrorCode::Internal, true, "claim service unavailable")
        },
    }
}

/// The answer to a status lookup: the acknowledgement if one is stored,
/// or a retryable internal error.
pub fn claim_status_reply(
    request_id: [u8; 16],
    claim_id: String,
    result: Result<Option<EabClaimAcknowledgement>, ProfileError>,
) -> (r: SecureMessage)
    ensures
        match result {
            Ok(a) => r@ == SecureMessageView::ClaimStatusResponse(
                ClaimStatusResponseView {
                    request_id: request_id@,
                    claim_id: claim_id@,
                    acknowledgement: ack_view(a),
                },
            ),
            Err(_) => r@ == protocol_error_view(
                request_id@,
                ProtocolErrorCode::Internal,
                true,
                "claim service unavailable"@,
            ),
        },
{
    match result {
        Ok(acknowledgement) => SecureMessage::ClaimStatusResponse(
            ClaimStatusResponse { request_id, claim_id, acknowledgement },
        ),
        Err(_) => protocol_error(
            request_id,
            ProtocolErrorCode::Internal,
            true,
            "claim service unavailable",
        ),
    }
}

/// Acknowledges `envelope` for `player_id` against the definition that
/// `registry` holds for the record's identity, if any.
pub fn acknowledge_with_registry<S: LedgerStorage>(
    service: &mut PlayerProfileService<S>,
    registry: &AchievementRegistry,
    player_id: &str,
    envelope: EabClaimEnvelope,
) -> (r: Result<EabClaimAcknowledgement, ProfileError>)
    ensures
        ({
            let rec = envelope@.record;
            let k = registry_key(rec.developer, rec.game, rec.achievement_id, rec.version);
            let d = if registry.map().contains_key(k) {
                Some(registry.map()[k]@)
            } else {
                None
            };
            old(service).acknowledged_claim(*final(service), r, player_id@, envelope@, d)
        }),
{
    let definition = registry.get(
        envelope.record.developer.as_str(),
        envelope.record.game.as_str(),
        envelope.record.achievement_id.as_str(),
        envelope.record.version,
    );
    service.acknowledge_canonical_claim(player_id, envelope, definition)
}

} // verus!
