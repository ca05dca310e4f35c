//! The canonical, transport-neutral claim envelope that presents one
//! offline record online, and the acknowledgement that answers it.
//!
//! Account binding is not part of the client-controlled envelope: a
//! transport authenticates a player session and hands the bound player id
//! to the authoritative service separately.

use vstd::prelude::*;
use crate::achievement::AchievementDefinitionView;
use crate::offline::{
    awarded_record, lemma_awarded_record_integrity, readiness_for, OfflineAchievementContextView,
    OfflineAchievementEventView, record_integrity_ok, verify_offline_record_integrity, OfflineAchievementRecord,
    OfflineAchievementRecordView, OfflineClaimReadiness,
};
use crate::text::{copy_opt_string, copy_string, opt_str_eq, opt_view, str_eq};

verus! {

pub const EAB_CLAIM_ENVELOPE_SCHEMA_VERSION: u32 = 1;
pub const EAB_CLAIM_ACKNOWLEDGEMENT_SCHEMA_VERSION: u32 = 1;

#[derive(Debug, Clone, PartialEq, Eq)]
pub struct EabClaimEnvelope {
    pub schema_version: u32,
    pub record: OfflineAchievementRecord,
}

pub struct EabClaimEnvelopeView {
    pub schema_version: u32,
    pub record: OfflineAchievementRecordView,
}

impl View for EabClaimEnvelope {
    type V = EabClaimEnvelopeView;

    open spec fn view(&self) -> EabClaimEnvelopeView {
        EabClaimEnvelopeView { schema_version: self.schema_version, record: self.record@ }
    }
}

#[derive(Debug)]
pub enum EabClaimEnvelopeError {
    UnsupportedSchemaVersion(u32),
    InvalidRecord(String),
    NotReady(OfflineClaimReadiness),
}

pub enum EabClaimEnvelopeErrorView {
    UnsupportedSchemaVersion(u32),
    InvalidRecord(Seq<char>),
    NotReady(OfflineClaimReadiness),
}

impl View for EabClaimEnvelopeError {
    type V = EabClaimEnvelopeErrorView;

    open spec fn view(&self) -> EabClaimEnvelopeErrorView {
        match self {
            EabClaimEnvelopeError::UnsupportedSchemaVersion(v) => EabClaimEnvelopeErrorView::UnsupportedSchemaVersion(*v),
            EabClaimEnvelopeError::InvalidRecord(m) => EabClaimEnvelopeErrorView::InvalidRecord(m@),
            EabClaimEnvelopeError::NotReady(r) => EabClaimEnvelopeErrorView::NotReady(*r),
        }
    }
}

/// The error that validating an envelope raises, checked in order:
/// schema, record integrity, readiness.
pub open spec fn envelope_fault(e: EabClaimEnvelopeView) -> Option<EabClaimEnvelopeErrorView> {
    if e.schema_version != EAB_CLAIM_ENVELOPE_SCHEMA_VERSION {
        Some(EabClaimEnvelopeErrorView::UnsupportedSchemaVersion(e.schema_version))
    } else if !record_integrity_ok(e.record) {
        Some(EabClaimEnvelopeErrorView::InvalidRecord("integrity verification failed"@))
    } else if e.record.claim_readiness != OfflineClaimReadiness::Ready {
        Some(EabClaimEnvelopeErrorView::NotReady(e.record.claim_readiness))
    } else {
        None
    }
}

impl EabClaimEnvelope {
    /// The envelope of the current schema around a copy of `record`, if it
    /// validates.
    pub fn from_offline_record(record: &OfflineAchievementRecord) -> (r: Result<
        Self,
        EabClaimEnvelopeError,
    >)
        ensures
            match envelope_fault(
                EabClaimEnvelopeView {
                    schema_version: EAB_CLAIM_ENVELOPE_SCHEMA_VERSION,
                    record: record@,
                },
            ) {
                Some(err) => r is Err && r->Err_0@ == err,
                None => r is Ok && r->Ok_0@ == (EabClaimEnvelopeView {
                    schema_version: EAB_CLAIM_ENVELOPE_SCHEMA_VERSION,
                    record: record@,
                }),
            },
    {
        let envelope = EabClaimEnvelope {
            schema_version: EAB_CLAIM_ENVELOPE_SCHEMA_VERSION,
            record: record.duplicate(),
        };
        envelope.validate()?;
        Ok(envelope)
    }

    pub fn validate(&self) -> (r: Result<(), EabClaimEnvelopeError>)
        ensures
            match envelope_fault(self@) {
                Some(err) => r is Err && r->Err_0@ == err,
                None => r is Ok,
            },
    {
        if self.schema_version != EAB_CLAIM_ENVELOPE_SCHEMA_VERSION {
            return Err(EabClaimEnvelopeError::UnsupportedSchemaVersion(self.schema_version));
        }
        let integrity_ok = match verify_offline_record_integrity(&self.record) {
            Ok(ok) => ok,
            Err(_) => false,
        };
        if !integrity_ok {
            return Err(
                EabClaimEnvelopeError::InvalidRecord(
                    String::from_str("integrity verification failed"),
                ),
            );
        }
        match self.record.claim_readiness {
            OfflineClaimReadiness::Ready => Ok(()),
            other => Err(EabClaimEnvelopeError::NotReady(other)),
        }
    }

    pub fn claim_id(&self) -> (r: &str)
        ensures
            r@ == self@.record.claim_id,
    {
        self.record.claim_id.as_str()
    }
}

#[derive(Debug, Clone, Copy, PartialEq, Eq, Structural)]
pub enum EabClaimDisposition {
    Pending,
    Acknowledged,
    Rejected,
    Conflict,
}

#[derive(Debug, Clone, Copy, PartialEq, Eq, Structural)]
pub enum EabClaimDecisionCode {
    PendingReview,
    Acknowledged,
    AlreadyAcknowledged,
    InvalidEnvelope,
    ClaimNotReady,
    ClaimIdPayloadMismatch,
    DefinitionNotFound,
    DefinitionIdentityMismatch,
    DefinitionDigestMismatch,
    IssuanceModeDisallowsClaim,
    EvidenceRequired,
    EventMismatch,
    ThresholdNotMet,
    RepeatableNotSupported,
}

#[derive(Debug, Clone, PartialEq, Eq)]
pub struct EabAwardReference {
    pub transaction_id: String,
    pub block_hash: String,
}

pub struct EabAwardReferenceView {
    pub transaction_id: Seq<char>,
    pub block_hash: Seq<char>,
}

impl View for EabAwardReference {
    type V = EabAwardReferenceView;

    open spec fn view(&self) -> EabAwardReferenceView {
        EabAwardReferenceView { transaction_id: self.transaction_id@, block_hash: self.block_hash@ }
    }
}

/// The result of authoritative claim processing.
#[derive(Debug, Clone, PartialEq, Eq)]
pub struct EabClaimAcknowledgement {
    pub schema_version: u32,
    pub claim_id: String,
    pub developer: String,
    pub game: String,
    pub achievement_id: String,
    pub version: u32,
    pub disposition: EabClaimDisposition,
    pub code: EabClaimDecisionCode,
    pub first_observed_at: String,
    pub decided_at: Option<String>,
    pub award: Option<EabAwardReference>,
}

pub struct EabClaimAcknowledgementView {
    pub schema_version: u32,
    pub claim_id: Seq<char>,
    pub developer: Seq<char>,
    pub game: Seq<char>,
    pub achievement_id: Seq<char>,
    pub version: u32,
    pub disposition: EabClaimDisposition,
    pub code: EabClaimDecisionCode,
    pub first_observed_at: Seq<char>,
    pub decided_at: Option<Seq<char>>,
    pub award: Option<EabAwardReferenceView>,
}

/// An optional award reference by its view.
pub open spec fn award_view(a: Option<EabAwardReference>) -> Option<EabAwardReferenceView> {
    match a {
        Some(v) => Some(v@),
        None => None,
    }
}

impl View for EabClaimAcknowledgement {
    type V = EabClaimAcknowledgementView;

    open spec fn view(&self) -> EabClaimAcknowledgementView {
        EabClaimAcknowledgementView {
            schema_version: self.schema_version,
            claim_id: self.claim_id@,
            developer: self.developer@,
            game: self.game@,
            achievement_id: self.achievement_id@,
            version: self.version,
            disposition: self.disposition,
            code: self.code,
            first_observed_at: self.first_observed_at@,
            decided_at: opt_view(self.decided_at),
            award: award_view(self.award),
        }
    }
}


impl EabClaimEnvelope {
    /// A copy with the same view.
    pub fn duplicate(&self) -> (r: Self)
        ensures
            r@ == self@,
    {
        EabClaimEnvelope { schema_version: self.schema_version, record: self.record.duplicate() }
    }

    /// Whether two envelopes carry the same schema and record.
    pub fn same_as(&self, other: &EabClaimEnvelope) -> (r: bool)
        ensures
            r == (self@ == other@),
    {
        let a = &self.record;
        let b = &other.record;
        self.schema_version == other.schema_version && a.schema_version == b.schema_version
            && str_eq(a.local_award_id.as_str(), b.local_award_id.as_str())
            && str_eq(a.claim_id.as_str(), b.claim_id.as_str())
            && str_eq(a.developer.as_str(), b.developer.as_str())
            && str_eq(a.game.as_str(), b.game.as_str())
            && str_eq(a.achievement_id.as_str(), b.achievement_id.as_str())
            && a.version == b.version
            && str_eq(a.definition_digest.as_str(), b.definition_digest.as_str())
            && str_eq(a.local_player_id.as_str(), b.local_player_id.as_str())
            && str_eq(a.save_id.as_str(), b.save_id.as_str())
            && str_eq(a.installation_id.as_str(), b.installation_id.as_str())
            && str_eq(a.session_id.as_str(), b.session_id.as_str())
            && a.client_sequence == b.client_sequence
            && str_eq(a.earned_at_local.as_str(), b.earned_at_local.as_str())
            && str_eq(a.recorded_at_local.as_str(), b.recorded_at_local.as_str())
            && str_eq(a.game_build.as_str(), b.game_build.as_str())
            && str_eq(a.event_key.as_str(), b.event_key.as_str())
            && a.event_value == b.event_value
            && opt_str_eq(&a.evidence, &b.evidence)
            && a.claim_readiness == b.claim_readiness
            && str_eq(a.local_record_hash.as_str(), b.local_record_hash.as_str())
    }
}

impl EabAwardReference {
    /// A copy with the same view.
    pub fn duplicate(&self) -> (r: Self)
        ensures
            r@ == self@,
    {
        EabAwardReference {
            transaction_id: copy_string(&self.transaction_id),
            block_hash: copy_string(&self.block_hash),
        }
    }
}

impl EabClaimAcknowledgement {
    /// A copy with the same view.
    pub fn duplicate(&self) -> (r: Self)
        ensures
            r@ == self@,
    {
        EabClaimAcknowledgement {
            schema_version: self.schema_version,
            claim_id: copy_string(&self.claim_id),
            developer: copy_string(&self.developer),
            game: copy_string(&self.game),
            achievement_id: copy_string(&self.achievement_id),
            version: self.version,
            disposition: self.disposition,
            code: self.code,
            first_observed_at: copy_string(&self.first_observed_at),
            decided_at: copy_opt_string(&self.decided_at),
            award: match &self.award {
                Some(a) => Some(a.duplicate()),
                None => None,
            },
        }
    }
}

/// The `Debug` name of a decision code.
pub open spec fn decision_code_name(c: EabClaimDecisionCode) -> Seq<char> {
    match c {
        EabClaimDecisionCode::PendingReview => "PendingReview"@,
        EabClaimDecisionCode::Acknowledged => "Acknowledged"@,
        EabClaimDecisionCode::AlreadyAcknowledged => "AlreadyAcknowledged"@,
        EabClaimDecisionCode::InvalidEnvelope => "InvalidEnvelope"@,
        EabClaimDecisionCode::ClaimNotReady => "ClaimNotReady"@,
        EabClaimDecisionCode::ClaimIdPayloadMismatch => "ClaimIdPayloadMismatch"@,
        EabClaimDecisionCode::DefinitionNotFound => "DefinitionNotFound"@,
        EabClaimDecisionCode::DefinitionIdentityMismatch => "DefinitionIdentityMismatch"@,
        EabClaimDecisionCode::DefinitionDigestMismatch => "DefinitionDigestMismatch"@,
        EabClaimDecisionCode::IssuanceModeDisallowsClaim => "IssuanceModeDisallowsClaim"@,
        EabClaimDecisionCode::EvidenceRequired => "EvidenceRequired"@,
        EabClaimDecisionCode::EventMismatch => "EventMismatch"@,
        EabClaimDecisionCode::ThresholdNotMet => "ThresholdNotMet"@,
        EabClaimDecisionCode::RepeatableNotSupported => "RepeatableNotSupported"@,
    }
}

/// The `Debug` name of `code`.
pub fn decision_code_text(code: EabClaimDecisionCode) -> (r: &'static str)
    ensures
        r@ == decision_code_name(code),
{
    match code {
        EabClaimDecisionCode::PendingReview => "PendingReview",
        EabClaimDecisionCode::Acknowledged => "Acknowledged",
        EabClaimDecisionCode::AlreadyAcknowledged => "AlreadyAcknowledged",
        EabClaimDecisionCode::InvalidEnvelope => "InvalidEnvelope",
        EabClaimDecisionCode::ClaimNotReady => "ClaimNotReady",
        EabClaimDecisionCode::ClaimIdPayloadMismatch => "ClaimIdPayloadMismatch",
        EabClaimDecisionCode::DefinitionNotFound => "DefinitionNotFound",
        EabClaimDecisionCode::DefinitionIdentityMismatch => "DefinitionIdentityMismatch",
        EabClaimDecisionCode::DefinitionDigestMismatch => "DefinitionDigestMismatch",
        EabClaimDecisionCode::IssuanceModeDisallowsClaim => "IssuanceModeDisallowsClaim",
        EabClaimDecisionCode::EvidenceRequired => "EvidenceRequired",
        EabClaimDecisionCode::EventMismatch => "EventMismatch",
        EabClaimDecisionCode::ThresholdNotMet => "ThresholdNotMet",
        EabClaimDecisionCode::RepeatableNotSupported => "RepeatableNotSupported",
    }
}

/// A record that an offline evaluation wrote as ready to claim makes a
/// valid envelope.
pub proof fn lemma_awarded_record_claimable(
    r: OfflineAchievementRecordView,
    d: AchievementDefinitionView,
    e: OfflineAchievementEventView,
    c: OfflineAchievementContextView,
)
    requires
        awarded_record(r, d, e, c),
        readiness_for(d, e) == OfflineClaimReadiness::Ready,
    ensures
        envelope_fault(
            EabClaimEnvelopeView { schema_version: EAB_CLAIM_ENVELOPE_SCHEMA_VERSION, record: r },
        ) is None,
{
    lemma_awarded_record_integrity(r, d, e, c);
}

} // verus!
