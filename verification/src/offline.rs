//! Offline achievement evaluation: one game event against one definition,
//! persisted as an immutable, self-hashed record that can later be claimed
//! online under the same claim id.

use vstd::prelude::*;
use crate::achievement::{
    definition_json, definition_json_bytes, mode_allows_claim_review, AchievementDefinition,
    AchievementDefinitionView, AchievementRepeatability,
};
use crate::digest::{sha256_hex, sha256_hex_of};
use crate::json::{
    json_decimal, json_key, json_opt_str, json_str, write_json_close, write_json_decimal,
    write_json_key, write_json_opt_str, write_json_str, CLOSE_BRACE,
};
use crate::text::{blank, copy_opt_string, copy_string, is_blank, opt_view, str_eq};

verus! {

/// Schema version of the records written by this evaluator.
pub const OFFLINE_RECORD_SCHEMA_VERSION: u32 = 1;

#[derive(Debug)]
pub enum OfflineAchievementError {
    InvalidDefinition(String),
    InvalidContext(String),
    InvalidEvent(String),
    RepeatableNotSupported,
    Integrity,
    DuplicateIdentity(String),
    Serialization(String),
    Storage(String),
}

pub enum OfflineAchievementErrorView {
    InvalidDefinition(Seq<char>),
    InvalidContext(Seq<char>),
    InvalidEvent(Seq<char>),
    RepeatableNotSupported,
    Integrity,
    DuplicateIdentity(Seq<char>),
    Serialization(Seq<char>),
    Storage(Seq<char>),
}

impl View for OfflineAchievementError {
    type V = OfflineAchievementErrorView;

    open spec fn view(&self) -> OfflineAchievementErrorView {
        match self {
            OfflineAchievementError::InvalidDefinition(m) => OfflineAchievementErrorView::InvalidDefinition(m@),
            OfflineAchievementError::InvalidContext(m) => OfflineAchievementErrorView::InvalidContext(m@),
            OfflineAchievementError::InvalidEvent(m) => OfflineAchievementErrorView::InvalidEvent(m@),
            OfflineAchievementError::RepeatableNotSupported => OfflineAchievementErrorView::RepeatableNotSupported,
            OfflineAchievementError::Integrity => OfflineAchievementErrorView::Integrity,
            OfflineAchievementError::DuplicateIdentity(m) => OfflineAchievementErrorView::DuplicateIdentity(m@),
            OfflineAchievementError::Serialization(m) => OfflineAchievementErrorView::Serialization(m@),
            OfflineAchievementError::Storage(m) => OfflineAchievementErrorView::Storage(m@),
        }
    }
}

#[derive(Debug, Clone, PartialEq, Eq)]
pub struct OfflineAchievementEvent {
    pub event_key: String,
    pub value: u64,
    pub occurred_at: String,
    pub evidence: Option<String>,
}

#[derive(Debug, Clone, PartialEq, Eq)]
pub struct OfflineAchievementContext {
    pub local_player_id: String,
    pub save_id: String,
    pub installation_id: String,
    pub session_id: String,
    pub client_sequence: u64,
    pub game_build: String,
}

#[derive(Debug, Clone, Copy, PartialEq, Eq, Structural)]
pub enum OfflineClaimReadiness {
    Ready,
    NotAllowedByIssuancePolicy,
    MissingRequiredEvidence,
}

#[derive(Debug, Clone, PartialEq, Eq)]
pub struct OfflineAchievementRecord {
    pub schema_version: u32,
    pub local_award_id: String,
    pub claim_id: String,
    pub developer: String,
    pub game: String,
    pub achievement_id: String,
    pub version: u32,
    pub definition_digest: String,
    pub local_player_id: String,
    pub save_id: String,
    pub installation_id: String,
    pub session_id: String,
    pub client_sequence: u64,
    pub earned_at_local: String,
    pub recorded_at_local: String,
    pub game_build: String,
    pub event_key: String,
    pub event_value: u64,
    pub evidence: Option<String>,
    pub claim_readiness: OfflineClaimReadiness,
    pub local_record_hash: String,
}

pub struct OfflineAchievementRecordView {
    pub schema_version: u32,
    pub local_award_id: Seq<char>,
    pub claim_id: Seq<char>,
    pub developer: Seq<char>,
    pub game: Seq<char>,
    pub achievement_id: Seq<char>,
    pub version: u32,
    pub definition_digest: Seq<char>,
    pub local_player_id: Seq<char>,
    pub save_id: Seq<char>,
    pub installation_id: Seq<char>,
    pub session_id: Seq<char>,
    pub client_sequence: u64,
    pub earned_at_local: Seq<char>,
    pub recorded_at_local: Seq<char>,
    pub game_build: Seq<char>,
    pub event_key: Seq<char>,
    pub event_value: u64,
    pub evidence: Option<Seq<char>>,
    pub claim_readiness: OfflineClaimReadiness,
    pub local_record_hash: Seq<char>,
}

impl View for OfflineAchievementRecord {
    type V = OfflineAchievementRecordView;

    open spec fn view(&self) -> OfflineAchievementRecordView {
        OfflineAchievementRecordView {
            schema_version: self.schema_version,
            local_award_id: self.local_award_id@,
            claim_id: self.claim_id@,
            developer: self.developer@,
            game: self.game@,
            achievement_id: self.achievement_id@,
            version: self.version,
            definition_digest: self.definition_digest@,
            local_player_id: self.local_player_id@,
            save_id: self.save_id@,
            installation_id: self.installation_id@,
            session_id: self.session_id@,
            client_sequence: self.client_sequence,
            earned_at_local: self.earned_at_local@,
            recorded_at_local: self.recorded_at_local@,
            game_build: self.game_build@,
            event_key: self.event_key@,
            event_value: self.event_value,
            evidence: opt_view(self.evidence),
            claim_readiness: self.claim_readiness,
            local_record_hash: self.local_record_hash@,
        }
    }
}

impl OfflineAchievementRecord {
    /// A copy with the same view.
    pub fn duplicate(&self) -> (r: Self)
        ensures
            r@ == self@,
    {
        OfflineAchievementRecord {
            schema_version: self.schema_version,
            local_award_id: copy_string(&self.local_award_id),
            claim_id: copy_string(&self.claim_id),
            developer: copy_string(&self.developer),
            game: copy_string(&self.game),
            achievement_id: copy_string(&self.achievement_id),
            version: self.version,
            definition_digest: copy_string(&self.definition_digest),
            local_player_id: copy_string(&self.local_player_id),
            save_id: copy_string(&self.save_id),
            installation_id: copy_string(&self.installation_id),
            session_id: copy_string(&self.session_id),
            client_sequence: self.client_sequence,
            earned_at_local: copy_string(&self.earned_at_local),
            recorded_at_local: copy_string(&self.recorded_at_local),
            game_build: copy_string(&self.game_build),
            event_key: copy_string(&self.event_key),
            event_value: self.event_value,
            evidence: copy_opt_string(&self.evidence),
            claim_readiness: self.claim_readiness,
            local_record_hash: copy_string(&self.local_record_hash),
        }
    }
}

#[derive(Debug, Clone, PartialEq, Eq)]
pub enum OfflineAwardOutcome {
    NoMatchingEvent,
    ThresholdNotMet { observed: u64, required: u64 },
    Awarded(OfflineAchievementRecord),
    AlreadyAwarded(OfflineAchievementRecord),
}

pub enum OfflineAwardOutcomeView {
    NoMatchingEvent,
    ThresholdNotMet { observed: u64, required: u64 },
    Awarded(OfflineAchievementRecordView),
    AlreadyAwarded(OfflineAchievementRecordView),
}

impl View for OfflineAwardOutcome {
    type V = OfflineAwardOutcomeView;

    open spec fn view(&self) -> OfflineAwardOutcomeView {
        match self {
            OfflineAwardOutcome::NoMatchingEvent => OfflineAwardOutcomeView::NoMatchingEvent,
            OfflineAwardOutcome::ThresholdNotMet { observed, required } => OfflineAwardOutcomeView::ThresholdNotMet {
                observed: *observed,
                required: *required,
            },
            OfflineAwardOutcome::Awarded(r) => OfflineAwardOutcomeView::Awarded(r@),
            OfflineAwardOutcome::AlreadyAwarded(r) => OfflineAwardOutcomeView::AlreadyAwarded(r@),
        }
    }
}

/// The views of a list of records.
pub open spec fn records_view(records: Seq<OfflineAchievementRecord>) -> Seq<
    OfflineAchievementRecordView,
> {
    records.map_values(|r: OfflineAchievementRecord| r@)
}

/// Where offline records are kept. Records are immutable once appended; a
/// failed append leaves the stored records as they were.
pub trait OfflineAchievementStorage {
    /// The records held, oldest first.
    spec fn stored(&self) -> Seq<OfflineAchievementRecordView>;

    fn records(&self) -> (r: &[OfflineAchievementRecord])
        ensures
            records_view(r@) == self.stored(),
    ;

    /// The records handed to `append`, oldest first, each with the error
    /// it was refused with (`None` where it was stored).
    spec fn attempted(&self) -> Seq<(OfflineAchievementRecordView, Option<OfflineAchievementErrorView>)>;

    /// The storage takes `record` as it stands.
    spec fn accepts(&self, record: OfflineAchievementRecordView) -> bool;

    /// Nothing but what `accepts` says can refuse a record: no write to
    /// the outside world can fail.
    spec fn stores_what_it_accepts(&self) -> bool;

    fn append(&mut self, record: &OfflineAchievementRecord) -> (r: Result<(), OfflineAchievementError>)
        ensures
            r is Ok ==> final(self).stored() == old(self).stored().push(record@),
            r is Err ==> final(self).stored() == old(self).stored(),
            final(self).attempted() == old(self).attempted().push((record@, append_answer(r))),
            r is Ok ==> old(self).accepts(record@),
            old(self).stores_what_it_accepts() && old(self).accepts(record@) ==> r is Ok,
            final(self).stores_what_it_accepts() == old(self).stores_what_it_accepts(),
    ;
}

/// A record whose local award id and claim id are new among `stored` and
/// whose integrity holds.
pub open spec fn new_and_intact(stored: Seq<OfflineAchievementRecordView>, record: OfflineAchievementRecordView) -> bool {
    !identity_taken(stored, record) && record_integrity_ok(record)
}

/// The error an append answered with, if any.
pub open spec fn append_answer(r: Result<(), OfflineAchievementError>) -> Option<OfflineAchievementErrorView> {
    match r {
        Ok(_) => None,
        Err(e) => Some(e@),
    }
}

// ---------------------------------------------------------------------
// Record JSON and integrity
// ---------------------------------------------------------------------

/// The snake-case name of a readiness.
pub open spec fn readiness_name(r: OfflineClaimReadiness) -> Seq<char> {
    match r {
        OfflineClaimReadiness::Ready => "ready"@,
        OfflineClaimReadiness::NotAllowedByIssuancePolicy => "not_allowed_by_issuance_policy"@,
        OfflineClaimReadiness::MissingRequiredEvidence => "missing_required_evidence"@,
    }
}

/// The JSON text of a record, members in declaration order.
#[verifier::opaque]
pub open spec fn record_json(r: OfflineAchievementRecordView) -> Seq<u8> {
    json_key(true, "schema_version"@) + json_decimal(r.schema_version as nat) + json_key(
        false,
        "local_award_id"@,
    ) + json_str(r.local_award_id) + json_key(false, "claim_id"@) + json_str(r.claim_id)
        + json_key(false, "developer"@) + json_str(r.developer) + json_key(false, "game"@)
        + json_str(r.game) + json_key(false, "achievement_id"@) + json_str(r.achievement_id)
        + json_key(false, "version"@) + json_decimal(r.version as nat) + json_key(
        false,
        "definition_digest"@,
    ) + json_str(r.definition_digest) + json_key(false, "local_player_id"@) + json_str(
        r.local_player_id,
    ) + json_key(false, "save_id"@) + json_str(r.save_id) + json_key(false, "installation_id"@)
        + json_str(r.installation_id) + json_key(false, "session_id"@) + json_str(r.session_id)
        + json_key(false, "client_sequence"@) + json_decimal(r.client_sequence as nat) + json_key(
        false,
        "earned_at_local"@,
    ) + json_str(r.earned_at_local) + json_key(false, "recorded_at_local"@) + json_str(
        r.recorded_at_local,
    ) + json_key(false, "game_build"@) + json_str(r.game_build) + json_key(false, "event_key"@)
        + json_str(r.event_key) + json_key(false, "event_value"@) + json_decimal(
        r.event_value as nat,
    ) + json_key(false, "evidence"@) + json_opt_str(r.evidence) + json_key(
        false,
        "claim_readiness"@,
    ) + json_str(readiness_name(r.claim_readiness)) + json_key(false, "local_record_hash"@)
        + json_str(r.local_record_hash) + seq![CLOSE_BRACE]
}

/// The hash of a record: SHA-256, in hex, of its JSON with the hash member
/// left empty.
pub open spec fn record_hash(r: OfflineAchievementRecordView) -> Seq<char> {
    sha256_hex_of(
        record_json(OfflineAchievementRecordView { local_record_hash: Seq::empty(), ..r }),
    )
}

/// A record of the current schema whose stored hash is non-empty and is
/// its own hash.
pub open spec fn record_integrity_ok(r: OfflineAchievementRecordView) -> bool {
    &&& r.schema_version == OFFLINE_RECORD_SCHEMA_VERSION
    &&& r.local_record_hash.len() > 0
    &&& record_hash(r) == r.local_record_hash
}

fn readiness_name_exec(r: OfflineClaimReadiness) -> (s: &'static str)
    ensures
        s@ == readiness_name(r),
{
    match r {
        OfflineClaimReadiness::Ready => "ready",
        OfflineClaimReadiness::NotAllowedByIssuancePolicy => "not_allowed_by_issuance_policy",
        OfflineClaimReadiness::MissingRequiredEvidence => "missing_required_evidence",
    }
}

fn write_record_head(out: &mut Vec<u8>, r: &OfflineAchievementRecord)
    ensures
        final(out)@ == old(out)@ + json_key(true, "schema_version"@) + json_decimal(
            r.schema_version as nat,
        ) + json_key(false, "local_award_id"@) + json_str(r.local_award_id@) + json_key(
            false,
            "claim_id"@,
        ) + json_str(r.claim_id@) + json_key(false, "developer"@) + json_str(r.developer@)
            + json_key(false, "game"@) + json_str(r.game@) + json_key(false, "achievement_id"@)
            + json_str(r.achievement_id@) + json_key(false, "version"@) + json_decimal(
            r.version as nat,
        ) + json_key(false, "definition_digest"@) + json_str(r.definition_digest@) + json_key(
            false,
            "local_player_id"@,
        ) + json_str(r.local_player_id@) + json_key(false, "save_id"@) + json_str(r.save_id@),
{
    write_json_key(out, true, "schema_version");
    write_json_decimal(out, r.schema_version as u64);
    write_json_key(out, false, "local_award_id");
    write_json_str(out, r.local_award_id.as_str());
    write_json_key(out, false, "claim_id");
    write_json_str(out, r.claim_id.as_str());
    write_json_key(out, false, "developer");
    write_json_str(out, r.developer.as_str());
    write_json_key(out, false, "game");
    write_json_str(out, r.game.as_str());
    write_json_key(out, false, "achievement_id");
    write_json_str(out, r.achievement_id.as_str());
    write_json_key(out, false, "version");
    write_json_decimal(out, r.version as u64);
    write_json_key(out, false, "definition_digest");
    write_json_str(out, r.definition_digest.as_str());
    write_json_key(out, false, "local_player_id");
    write_json_str(out, r.local_player_id.as_str());
    write_json_key(out, false, "save_id");
    write_json_str(out, r.save_id.as_str());
}

/// The JSON text of `record` with `hash` in place of its stored hash.
fn record_json_bytes(r: &OfflineAchievementRecord, hash: &str) -> (out: Vec<u8>)
    ensures
        out@ == record_json(OfflineAchievementRecordView { local_record_hash: hash@, ..r@ }),
{
    let mut out: Vec<u8> = Vec::new();
    write_record_head(&mut out, r);
    write_json_key(&mut out, false, "installation_id");
    write_json_str(&mut out, r.installation_id.as_str());
    write_json_key(&mut out, false, "session_id");
    write_json_str(&mut out, r.session_id.as_str());
    write_json_key(&mut out, false, "client_sequence");
    write_json_decimal(&mut out, r.client_sequence);
    write_json_key(&mut out, false, "earned_at_local");
    write_json_str(&mut out, r.earned_at_local.as_str());
    write_json_key(&mut out, false, "recorded_at_local");
    write_json_str(&mut out, r.recorded_at_local.as_str());
    write_json_key(&mut out, false, "game_build");
    write_json_str(&mut out, r.game_build.as_str());
    write_json_key(&mut out, false, "event_key");
    write_json_str(&mut out, r.event_key.as_str());
    write_json_key(&mut out, false, "event_value");
    write_json_decimal(&mut out, r.event_value);
    write_json_key(&mut out, false, "evidence");
    write_json_opt_str(&mut out, &r.evidence);
    write_json_key(&mut out, false, "claim_readiness");
    write_json_str(&mut out, readiness_name_exec(r.claim_readiness));
    write_json_key(&mut out, false, "local_record_hash");
    write_json_str(&mut out, hash);
    write_json_close(&mut out);
    reveal(record_json);
    assert(out@ =~= record_json(OfflineAchievementRecordView { local_record_hash: hash@, ..r@ }));
    out
}

fn offline_record_hash(record: &OfflineAchievementRecord) -> (r: String)
    ensures
        r@ == record_hash(record@),
        r@.len() == 64,
{
    let empty = String::new();
    let material = record_json_bytes(record, empty.as_str());
    sha256_hex(material.as_slice())
}

/// The digest that records of `definition` carry: SHA-256, in hex, of its
/// JSON text.
pub fn definition_digest(definition: &AchievementDefinition) -> (r: Result<
    String,
    OfflineAchievementError,
>)
    ensures
        r is Ok,
        r->Ok_0@ == sha256_hex_of(definition_json(definition@)),
        r->Ok_0@.len() == 64,
        forall|i: int| 0 <= i < 64 ==> crate::digest::lower_hex_digit(#[trigger] r->Ok_0@[i]),
{
    let bytes = definition_json_bytes(definition);
    Ok(sha256_hex(bytes.as_slice()))
}

/// Whether `record` is of the current schema and its stored hash is its
/// own hash.
pub fn verify_offline_record_integrity(record: &OfflineAchievementRecord) -> (r: Result<
    bool,
    OfflineAchievementError,
>)
    ensures
        r == Ok::<bool, OfflineAchievementError>(record_integrity_ok(record@)),
{
    if record.schema_version != OFFLINE_RECORD_SCHEMA_VERSION
        || record.local_record_hash.as_str().is_empty() {
        return Ok(false);
    }
    let hash = offline_record_hash(record);
    Ok(hash == record.local_record_hash)
}

// ---------------------------------------------------------------------
// Storage
// ---------------------------------------------------------------------

/// Two records share the local award id or the claim id.
pub open spec fn same_identity(a: OfflineAchievementRecordView, b: OfflineAchievementRecordView) -> bool {
    a.local_award_id == b.local_award_id || a.claim_id == b.claim_id
}

/// Some stored record shares the local award id or the claim id of `r`.
pub open spec fn identity_taken(stored: Seq<OfflineAchievementRecordView>, r: OfflineAchievementRecordView) -> bool {
    exists|i: int| 0 <= i < stored.len() && same_identity(#[trigger] stored[i], r)
}

/// Refuses a record whose local award id or claim id is already stored.
pub fn validate_new_identity(
    records: &[OfflineAchievementRecord],
    record: &OfflineAchievementRecord,
) -> (r: Result<(), OfflineAchievementError>)
    ensures
        identity_taken(records_view(records@), record@) ==> (r is Err && r->Err_0@
            == OfflineAchievementErrorView::DuplicateIdentity(record@.claim_id)),
        !identity_taken(records_view(records@), record@) ==> r is Ok,
{
    let ghost rv = records_view(records@);
    let mut i: usize = 0;
    while i < records.len()
        invariant
            i <= records@.len(),
            rv == records_view(records@),
            forall|j: int| 0 <= j < i ==> !same_identity(#[trigger] rv[j], record@),
        decreases records@.len() - i,
    {
        let existing = &records[i];
        assert(rv[i as int] == existing@);
        if existing.local_award_id == record.local_award_id || existing.claim_id
            == record.claim_id {
            assert(same_identity(rv[i as int], record@));
            return Err(OfflineAchievementError::DuplicateIdentity(copy_string(&record.claim_id)));
        }
        i = i + 1;
    }
    Ok(())
}

/// Records kept in memory.
pub struct MemoryOfflineAchievementStorage {
    records: Vec<OfflineAchievementRecord>,
    attempts: Ghost<Seq<(OfflineAchievementRecordView, Option<OfflineAchievementErrorView>)>>,
}

impl MemoryOfflineAchievementStorage {
    pub fn new() -> (r: Self)
        ensures
            r.stored() == Seq::<OfflineAchievementRecordView>::empty(),
            r.attempted() == Seq::<(OfflineAchievementRecordView, Option<OfflineAchievementErrorView>)>::empty(),
    {
        let r = MemoryOfflineAchievementStorage { records: Vec::new(), attempts: Ghost(Seq::empty()) };
        assert(records_view(r.records@) =~= Seq::<OfflineAchievementRecordView>::empty());
        r
    }
}

impl MemoryOfflineAchievementStorage {
    /// Stores a record whose identity is new and whose integrity holds.
    fn store(&mut self, record: &OfflineAchievementRecord) -> (r: Result<(), OfflineAchievementError>)
        ensures
            final(self).attempts@ == old(self).attempts@,
            r is Ok ==> records_view(final(self).records@) == records_view(old(self).records@).push(record@),
            r is Err ==> final(self).records@ == old(self).records@,
            identity_taken(records_view(old(self).records@), record@) ==> (r is Err && r->Err_0@
                == OfflineAchievementErrorView::DuplicateIdentity(record@.claim_id)),
            !identity_taken(records_view(old(self).records@), record@) && !record_integrity_ok(record@) ==> (
            r is Err && r->Err_0@ == OfflineAchievementErrorView::Integrity),
            r is Ok <==> !identity_taken(records_view(old(self).records@), record@) && record_integrity_ok(
                record@,
            ),
    {
        let ghost before = self.records@;
        validate_new_identity(self.records.as_slice(), record)?;
        let ok = verify_offline_record_integrity(record)?;
        if !ok {
            return Err(OfflineAchievementError::Integrity);
        }
        self.records.push(record.duplicate());
        assert(records_view(self.records@) =~= records_view(before).push(record@));
        Ok(())
    }
}

impl OfflineAchievementStorage for MemoryOfflineAchievementStorage {
    closed spec fn stored(&self) -> Seq<OfflineAchievementRecordView> {
        records_view(self.records@)
    }

    closed spec fn attempted(&self) -> Seq<(OfflineAchievementRecordView, Option<OfflineAchievementErrorView>)> {
        self.attempts@
    }

    open spec fn accepts(&self, record: OfflineAchievementRecordView) -> bool {
        new_and_intact(self.stored(), record)
    }

    open spec fn stores_what_it_accepts(&self) -> bool {
        true
    }

    fn records(&self) -> (r: &[OfflineAchievementRecord]) {
        self.records.as_slice()
    }

    /// Appends a record whose identity is new and whose integrity holds.
    fn append(&mut self, record: &OfflineAchievementRecord) -> (r: Result<(), OfflineAchievementError>)
        ensures
            identity_taken(old(self).stored(), record@) ==> (r is Err && r->Err_0@
                == OfflineAchievementErrorView::DuplicateIdentity(record@.claim_id)),
            !identity_taken(old(self).stored(), record@) && !record_integrity_ok(record@) ==> (
            r is Err && r->Err_0@ == OfflineAchievementErrorView::Integrity),
            r is Ok <==> !identity_taken(old(self).stored(), record@) && record_integrity_ok(
                record@,
            ),
    {
        let r = self.store(record);
        proof {
            self.attempts@ = self.attempts@.push((record@, append_answer(r)));
        }
        r
    }
}


/// Why a journal of records read back is refused: the first record whose
/// integrity fails, or whose identity an earlier record already has.
pub open spec fn journal_fault(records: Seq<OfflineAchievementRecordView>) -> Option<OfflineAchievementErrorView>
    decreases records.len(),
{
    if records.len() == 0 {
        None
    } else {
        match journal_fault(records.drop_last()) {
            Some(e) => Some(e),
            None => if !record_integrity_ok(records.last()) {
                Some(OfflineAchievementErrorView::Integrity)
            } else if identity_taken(records.drop_last(), records.last()) {
                Some(OfflineAchievementErrorView::DuplicateIdentity(records.last().claim_id))
            } else {
                None
            },
        }
    }
}

/// Writes one journal line for a record; the file itself is the writer's.
pub trait JournalWriter {
    fn write_record(&mut self, path: &str, record: &OfflineAchievementRecord) -> Result<(), OfflineAchievementError>;
}

/// Records journaled at a path, one per line: those read back when it was
/// opened, then each appended one once its line is written.
pub struct FileOfflineAchievementStorage<W: JournalWriter> {
    path: String,
    records: Vec<OfflineAchievementRecord>,
    writer: W,
    attempts: Ghost<Seq<(OfflineAchievementRecordView, Option<OfflineAchievementErrorView>)>>,
}

impl<W: JournalWriter> FileOfflineAchievementStorage<W> {
    pub closed spec fn path_view(&self) -> Seq<char> {
        self.path@
    }

    /// The journal at `path`, from the records decoded from its lines:
    /// each must keep its integrity and have an identity of its own.
    pub fn open_records(path: String, decoded: Vec<OfflineAchievementRecord>, writer: W) -> (r: Result<
        Self,
        OfflineAchievementError,
    >)
        ensures
            match journal_fault(records_view(decoded@)) {
                Some(e) => r matches Err(error) && error@ == e,
                None => r matches Ok(s) && s.stored() == records_view(decoded@) && s.path_view() == path@
                    && s.attempted() == Seq::<(OfflineAchievementRecordView, Option<OfflineAchievementErrorView>)>::empty(),
            },
    {
        let ghost all = records_view(decoded@);
        let mut records: Vec<OfflineAchievementRecord> = Vec::new();
        let mut i: usize = 0;
        while i < decoded.len()
            invariant
                i <= decoded@.len(),
                all == records_view(decoded@),
                journal_fault(all.subrange(0, i as int)) is None,
                records_view(records@) == all.subrange(0, i as int),
            decreases decoded@.len() - i,
        {
            let record = &decoded[i];
            assert(all.subrange(0, i + 1).drop_last() =~= all.subrange(0, i as int));
            assert(all.subrange(0, i + 1).last() == record@);
            let ok = verify_offline_record_integrity(record)?;
            if !ok {
                proof {
                    lemma_journal_fault_persists(all, i + 1);
                }
                return Err(OfflineAchievementError::Integrity);
            }
            match validate_new_identity(records.as_slice(), record) {
                Ok(()) => {},
                Err(e) => {
                    proof {
                        lemma_journal_fault_persists(all, i + 1);
                    }
                    return Err(e);
                },
            }
            let ghost before = records@;
            records.push(record.duplicate());
            assert(records_view(records@) =~= records_view(before).push(record@));
            i = i + 1;
            assert(records_view(records@) =~= all.subrange(0, i as int));
        }
        assert(all.subrange(0, all.len() as int) =~= all);
        Ok(FileOfflineAchievementStorage { path, records, writer, attempts: Ghost(Seq::empty()) })
    }

    pub fn path(&self) -> (r: &str)
        ensures
            r@ == self.path_view(),
    {
        self.path.as_str()
    }
}

impl<W: JournalWriter> FileOfflineAchievementStorage<W> {
    /// Stores a record whose identity is new and whose integrity holds,
    /// once its line is written.
    fn store(&mut self, record: &OfflineAchievementRecord) -> (r: Result<(), OfflineAchievementError>)
        ensures
            final(self).attempts@ == old(self).attempts@,
            final(self).path@ == old(self).path@,
            r is Ok ==> records_view(final(self).records@) == records_view(old(self).records@).push(record@),
            r is Err ==> final(self).records@ == old(self).records@,
            identity_taken(records_view(old(self).records@), record@) ==> (r is Err && r->Err_0@
                == OfflineAchievementErrorView::DuplicateIdentity(record@.claim_id)),
            !identity_taken(records_view(old(self).records@), record@) && !record_integrity_ok(record@) ==> (
            r is Err && r->Err_0@ == OfflineAchievementErrorView::Integrity),
            r is Ok ==> !identity_taken(records_view(old(self).records@), record@) && record_integrity_ok(record@),
    {
        let ghost before = self.records@;
        validate_new_identity(self.records.as_slice(), record)?;
        let ok = verify_offline_record_integrity(record)?;
        if !ok {
            return Err(OfflineAchievementError::Integrity);
        }
        self.writer.write_record(self.path.as_str(), record)?;
        self.records.push(record.duplicate());
        assert(records_view(self.records@) =~= records_view(before).push(record@));
        Ok(())
    }
}

impl<W: JournalWriter> OfflineAchievementStorage for FileOfflineAchievementStorage<W> {
    closed spec fn stored(&self) -> Seq<OfflineAchievementRecordView> {
        records_view(self.records@)
    }

    closed spec fn attempted(&self) -> Seq<(OfflineAchievementRecordView, Option<OfflineAchievementErrorView>)> {
        self.attempts@
    }

    /// A record is taken where it is new and intact; its line must then
    /// also be written, which may fail.
    open spec fn accepts(&self, record: OfflineAchievementRecordView) -> bool {
        new_and_intact(self.stored(), record)
    }

    open spec fn stores_what_it_accepts(&self) -> bool {
        false
    }

    fn records(&self) -> (r: &[OfflineAchievementRecord]) {
        self.records.as_slice()
    }

    /// Appends a record whose identity is new and whose integrity holds,
    /// once its line is written.
    fn append(&mut self, record: &OfflineAchievementRecord) -> (r: Result<(), OfflineAchievementError>)
        ensures
            identity_taken(old(self).stored(), record@) ==> (r is Err && r->Err_0@
                == OfflineAchievementErrorView::DuplicateIdentity(record@.claim_id)),
            !identity_taken(old(self).stored(), record@) && !record_integrity_ok(record@) ==> (
            r is Err && r->Err_0@ == OfflineAchievementErrorView::Integrity),
            r is Ok ==> !identity_taken(old(self).stored(), record@) && record_integrity_ok(record@),
    {
        let r = self.store(record);
        proof {
            self.attempts@ = self.attempts@.push((record@, append_answer(r)));
        }
        r
    }
}

proof fn lemma_journal_fault_persists(records: Seq<OfflineAchievementRecordView>, i: int)
    requires
        0 <= i <= records.len(),
        journal_fault(records.subrange(0, i)) is Some,
    ensures
        journal_fault(records) == journal_fault(records.subrange(0, i)),
    decreases records.len() - i,
{
    if i == records.len() {
        assert(records.subrange(0, i) =~= records);
    } else {
        assert(records.subrange(0, i + 1).drop_last() =~= records.subrange(0, i));
        lemma_journal_fault_persists(records, i + 1);
    }
}

// ---------------------------------------------------------------------
// Evaluation
// ---------------------------------------------------------------------

pub struct OfflineAchievementEventView {
    pub event_key: Seq<char>,
    pub value: u64,
    pub occurred_at: Seq<char>,
    pub evidence: Option<Seq<char>>,
}

impl View for OfflineAchievementEvent {
    type V = OfflineAchievementEventView;

    open spec fn view(&self) -> OfflineAchievementEventView {
        OfflineAchievementEventView {
            event_key: self.event_key@,
            value: self.value,
            occurred_at: self.occurred_at@,
            evidence: opt_view(self.evidence),
        }
    }
}

pub struct OfflineAchievementContextView {
    pub local_player_id: Seq<char>,
    pub save_id: Seq<char>,
    pub installation_id: Seq<char>,
    pub session_id: Seq<char>,
    pub client_sequence: u64,
    pub game_build: Seq<char>,
}

impl View for OfflineAchievementContext {
    type V = OfflineAchievementContextView;

    open spec fn view(&self) -> OfflineAchievementContextView {
        OfflineAchievementContextView {
            local_player_id: self.local_player_id@,
            save_id: self.save_id@,
            installation_id: self.installation_id@,
            session_id: self.session_id@,
            client_sequence: self.client_sequence,
            game_build: self.game_build@,
        }
    }
}

/// The first rule of a definition that an offline evaluation needs and
/// that it breaks, as the message of `InvalidDefinition`.
pub open spec fn definition_fault(d: AchievementDefinitionView) -> Option<Seq<char>> {
    if blank(d.developer) {
        Some("developer must not be empty"@)
    } else if blank(d.game) {
        Some("game must not be empty"@)
    } else if blank(d.achievement_id) {
        Some("achievement_id must not be empty"@)
    } else if d.version == 0 {
        Some("version must be greater than zero"@)
    } else {
        None
    }
}

/// The first blank context field, as the message of `InvalidContext`.
pub open spec fn context_fault(c: OfflineAchievementContextView) -> Option<Seq<char>> {
    if blank(c.local_player_id) {
        Some("local_player_id must not be empty"@)
    } else if blank(c.save_id) {
        Some("save_id must not be empty"@)
    } else if blank(c.installation_id) {
        Some("installation_id must not be empty"@)
    } else if blank(c.session_id) {
        Some("session_id must not be empty"@)
    } else if blank(c.game_build) {
        Some("game_build must not be empty"@)
    } else {
        None
    }
}

/// The first blank event field, as the message of `InvalidEvent`.
pub open spec fn event_fault(e: OfflineAchievementEventView) -> Option<Seq<char>> {
    if blank(e.event_key) {
        Some("event_key must not be empty"@)
    } else if blank(e.occurred_at) {
        Some("occurred_at must not be empty"@)
    } else {
        None
    }
}

/// The event value a definition asks for: its threshold, or one.
pub open spec fn required_value(d: AchievementDefinitionView) -> u64 {
    match d.threshold {
        Some(t) => t,
        None => 1,
    }
}

/// A stored record is this player's award of this achievement (of any
/// version).
pub open spec fn award_matches(
    r: OfflineAchievementRecordView,
    d: AchievementDefinitionView,
    c: OfflineAchievementContextView,
) -> bool {
    &&& r.local_player_id == c.local_player_id
    &&& r.developer == d.developer
    &&& r.game == d.game
    &&& r.achievement_id == d.achievement_id
}

/// The index of the first matching award at or after `k`.
pub open spec fn first_award_from(
    stored: Seq<OfflineAchievementRecordView>,
    d: AchievementDefinitionView,
    c: OfflineAchievementContextView,
    k: int,
) -> Option<int>
    decreases stored.len() - k,
{
    if k < 0 || k >= stored.len() {
        None
    } else if award_matches(stored[k], d, c) {
        Some(k)
    } else {
        first_award_from(stored, d, c, k + 1)
    }
}

proof fn lemma_first_award_bounds(
    stored: Seq<OfflineAchievementRecordView>,
    d: AchievementDefinitionView,
    c: OfflineAchievementContextView,
    k: int,
)
    requires
        0 <= k,
    ensures
        first_award_from(stored, d, c, k) matches Some(i) ==> k <= i < stored.len() && award_matches(
            stored[i],
            d,
            c,
        ),
    decreases stored.len() - k,
{
    if k < stored.len() && !award_matches(stored[k], d, c) {
        lemma_first_award_bounds(stored, d, c, k + 1);
    }
}

/// `r` is the award of `c`'s local player for the achievement of `d`
/// (any version): the same player, developer, game and achievement id.
pub open spec fn players_award(
    r: OfflineAchievementRecordView,
    d: AchievementDefinitionView,
    c: OfflineAchievementContextView,
) -> bool {
    r.local_player_id == c.local_player_id && r.developer == d.developer && r.game == d.game
        && r.achievement_id == d.achievement_id
}

/// The search for an award from `k` on finds the first stored award of
/// this player for this achievement, and finds none where there is none.
proof fn lemma_first_award_is_first_players_award(
    stored: Seq<OfflineAchievementRecordView>,
    d: AchievementDefinitionView,
    c: OfflineAchievementContextView,
    k: int,
)
    requires
        0 <= k,
    ensures
        match first_award_from(stored, d, c, k) {
            Some(i) => k <= i < stored.len() && players_award(stored[i], d, c) && forall|j: int|
                k <= j < i ==> !players_award(#[trigger] stored[j], d, c),
            None => forall|j: int| k <= j < stored.len() ==> !players_award(#[trigger] stored[j], d, c),
        },
    decreases stored.len() - k,
{
    if k < stored.len() {
        lemma_first_award_is_first_players_award(stored, d, c, k + 1);
    }
}

/// An earlier award short-circuits evaluation only when it is this local
/// player's award of this achievement: the record answered as already
/// awarded is the first such, and where the stored records hold none for
/// this player, an event that qualifies is awarded anew.
pub proof fn lemma_existing_award_is_the_players(
    stored: Seq<OfflineAchievementRecordView>,
    d: AchievementDefinitionView,
    e: OfflineAchievementEventView,
    c: OfflineAchievementContextView,
)
    ensures
        offline_step(stored, d, e, c) matches OfflineStep::Existing(i) ==> {
            &&& 0 <= i < stored.len()
            &&& players_award(stored[i], d, c)
            &&& forall|j: int| 0 <= j < i ==> !players_award(#[trigger] stored[j], d, c)
        },
        (forall|j: int| 0 <= j < stored.len() ==> !players_award(#[trigger] stored[j], d, c)) ==> !(
        offline_step(stored, d, e, c) is Existing),
        (forall|j: int| 0 <= j < stored.len() ==> !players_award(#[trigger] stored[j], d, c))
            ==> offline_step(stored, d, e, c) == offline_step(Seq::empty(), d, e, c),
{
    lemma_first_award_is_first_players_award(stored, d, c, 0);
    lemma_first_award_is_first_players_award(Seq::empty(), d, c, 0);
}

/// Recording is idempotent per player: once an event was awarded and its
/// record stored, the same evaluation for the same player answers with
/// that record.
pub proof fn lemma_award_then_already_awarded(
    stored: Seq<OfflineAchievementRecordView>,
    d: AchievementDefinitionView,
    e: OfflineAchievementEventView,
    c: OfflineAchievementContextView,
    record: OfflineAchievementRecordView,
)
    requires
        offline_step(stored, d, e, c) is Award,
        awarded_record(record, d, e, c),
    ensures
        offline_step(stored.push(record), d, e, c) == OfflineStep::Existing(stored.len() as int),
{
    let s2 = stored.push(record);
    lemma_first_award_is_first_players_award(stored, d, c, 0);
    lemma_first_award_is_first_players_award(s2, d, c, 0);
    assert(players_award(s2[stored.len() as int], d, c));
    assert forall|j: int| 0 <= j < stored.len() implies !players_award(#[trigger] s2[j], d, c) by {
        assert(s2[j] == stored[j]);
    }
}

/// Whether a new record can be claimed online, and if not, why.
pub open spec fn readiness_for(d: AchievementDefinitionView, e: OfflineAchievementEventView) -> OfflineClaimReadiness {
    if !mode_allows_claim_review(d.policy.issuance_mode) {
        OfflineClaimReadiness::NotAllowedByIssuancePolicy
    } else if d.requires_evidence && e.evidence is None {
        OfflineClaimReadiness::MissingRequiredEvidence
    } else {
        OfflineClaimReadiness::Ready
    }
}

/// What evaluating an event does.
pub enum OfflineStep {
    Fail(OfflineAchievementErrorView),
    NoMatchingEvent,
    ThresholdNotMet { observed: u64, required: u64 },
    Existing(int),
    Award(OfflineClaimReadiness),
}

/// The step that evaluating `e` against `d` in context `c` takes, with
/// `stored` already recorded.
pub open spec fn offline_step(
    stored: Seq<OfflineAchievementRecordView>,
    d: AchievementDefinitionView,
    e: OfflineAchievementEventView,
    c: OfflineAchievementContextView,
) -> OfflineStep {
    if definition_fault(d) is Some {
        OfflineStep::Fail(OfflineAchievementErrorView::InvalidDefinition(definition_fault(d)->0))
    } else if context_fault(c) is Some {
        OfflineStep::Fail(OfflineAchievementErrorView::InvalidContext(context_fault(c)->0))
    } else if event_fault(e) is Some {
        OfflineStep::Fail(OfflineAchievementErrorView::InvalidEvent(event_fault(e)->0))
    } else if d.event_key is None {
        OfflineStep::Fail(
            OfflineAchievementErrorView::InvalidDefinition(
                "offline evaluation requires accomplishment.event_key"@,
            ),
        )
    } else if e.event_key != d.event_key->0 {
        OfflineStep::NoMatchingEvent
    } else if d.policy.repeatability == AchievementRepeatability::Repeatable {
        OfflineStep::Fail(OfflineAchievementErrorView::RepeatableNotSupported)
    } else if required_value(d) == 0 {
        OfflineStep::Fail(
            OfflineAchievementErrorView::InvalidDefinition(
                "accomplishment.threshold must be greater than zero"@,
            ),
        )
    } else if e.value < required_value(d) {
        OfflineStep::ThresholdNotMet { observed: e.value, required: required_value(d) }
    } else if first_award_from(stored, d, c, 0) is Some {
        OfflineStep::Existing(first_award_from(stored, d, c, 0)->0)
    } else {
        OfflineStep::Award(readiness_for(d, e))
    }
}

/// A lowercase hexadecimal digit.
pub open spec fn lower_hex_char(c: char) -> bool {
    ('0' <= c && c <= '9') || ('a' <= c && c <= 'f')
}

/// The hyphenated lowercase text of a UUID.
pub open spec fn uuid_text(s: Seq<char>) -> bool {
    &&& s.len() == 36
    &&& forall|i: int|
        0 <= i < 36 ==> (if i == 8 || i == 13 || i == 18 || i == 23 {
            #[trigger] s[i] == '-'
        } else {
            lower_hex_char(s[i])
        })
}

/// A character that an RFC 3339 timestamp is written with.
pub open spec fn timestamp_char(c: char) -> bool {
    ('0' <= c && c <= '9') || c == '-' || c == 'T' || c == ':' || c == '.' || c == '+'
}

/// The shape of an RFC 3339 timestamp.
pub open spec fn timestamp_text(s: Seq<char>) -> bool {
    &&& 0 < s.len() <= 64
    &&& forall|i: int| 0 <= i < s.len() ==> timestamp_char(#[trigger] s[i])
}

/// The record that evaluating `e` against `d` in context `c` writes, but
/// for its fresh identifiers and recording time, which are only shaped.
pub open spec fn awarded_record(
    r: OfflineAchievementRecordView,
    d: AchievementDefinitionView,
    e: OfflineAchievementEventView,
    c: OfflineAchievementContextView,
) -> bool {
    &&& record_fields(r, d, e, c)
    &&& uuid_text(r.local_award_id)
    &&& uuid_text(r.claim_id)
    &&& timestamp_text(r.recorded_at_local)
}

/// Every field of `r` but its two ids and when it was recorded is what
/// the definition, the event and the context give, and its hash is its
/// own.
pub open spec fn record_fields(
    r: OfflineAchievementRecordView,
    d: AchievementDefinitionView,
    e: OfflineAchievementEventView,
    c: OfflineAchievementContextView,
) -> bool {
    &&& r.schema_version == OFFLINE_RECORD_SCHEMA_VERSION
    &&& r.developer == d.developer
    &&& r.game == d.game
    &&& r.achievement_id == d.achievement_id
    &&& r.version == d.version
    &&& r.definition_digest == sha256_hex_of(definition_json(d))
    &&& r.local_player_id == c.local_player_id
    &&& r.save_id == c.save_id
    &&& r.installation_id == c.installation_id
    &&& r.session_id == c.session_id
    &&& r.client_sequence == c.client_sequence
    &&& r.earned_at_local == e.occurred_at
    &&& r.game_build == c.game_build
    &&& r.event_key == e.event_key
    &&& r.event_value == e.value
    &&& r.evidence == e.evidence
    &&& r.claim_readiness == readiness_for(d, e)
    &&& r.local_record_hash == record_hash(r)
    &&& r.local_record_hash.len() == 64
}

/// `uuid::Uuid::new_v4` shown with `to_string`: a random version-4 UUID in
/// hyphenated lowercase form. Which UUID comes out is left open.
#[verifier::external_body]
pub(crate) fn new_uuid_text() -> (r: String)
    ensures
        uuid_text(r@),
{
    uuid::Uuid::new_v4().to_string()
}

/// `chrono::Utc::now` shown with `to_rfc3339`: the current UTC time as
/// RFC 3339 text. Which time comes out is left open; only its shape is
/// stated.
#[verifier::external_body]
pub(crate) fn now_rfc3339() -> (r: String)
    ensures
        timestamp_text(r@),
{
    chrono::Utc::now().to_rfc3339()
}

fn validate_definition(definition: &AchievementDefinition) -> (r: Result<(), OfflineAchievementError>)
    ensures
        match definition_fault(definition@) {
            Some(m) => r is Err && r->Err_0@ == OfflineAchievementErrorView::InvalidDefinition(m),
            None => r is Ok,
        },
{
    if is_blank(definition.developer()) {
        return Err(OfflineAchievementError::InvalidDefinition(String::from_str("developer must not be empty")));
    }
    if is_blank(definition.game()) {
        return Err(OfflineAchievementError::InvalidDefinition(String::from_str("game must not be empty")));
    }
    if is_blank(definition.achievement_id()) {
        return Err(OfflineAchievementError::InvalidDefinition(String::from_str("achievement_id must not be empty")));
    }
    if definition.version() == 0 {
        return Err(OfflineAchievementError::InvalidDefinition(String::from_str("version must be greater than zero")));
    }
    Ok(())
}

fn validate_context(context: &OfflineAchievementContext) -> (r: Result<(), OfflineAchievementError>)
    ensures
        match context_fault(context@) {
            Some(m) => r is Err && r->Err_0@ == OfflineAchievementErrorView::InvalidContext(m),
            None => r is Ok,
        },
{
    if is_blank(context.local_player_id.as_str()) {
        return Err(OfflineAchievementError::InvalidContext(String::from_str("local_player_id must not be empty")));
    }
    if is_blank(context.save_id.as_str()) {
        return Err(OfflineAchievementError::InvalidContext(String::from_str("save_id must not be empty")));
    }
    if is_blank(context.installation_id.as_str()) {
        return Err(OfflineAchievementError::InvalidContext(String::from_str("installation_id must not be empty")));
    }
    if is_blank(context.session_id.as_str()) {
        return Err(OfflineAchievementError::InvalidContext(String::from_str("session_id must not be empty")));
    }
    if is_blank(context.game_build.as_str()) {
        return Err(OfflineAchievementError::InvalidContext(String::from_str("game_build must not be empty")));
    }
    Ok(())
}

fn validate_event(event: &OfflineAchievementEvent) -> (r: Result<(), OfflineAchievementError>)
    ensures
        match event_fault(event@) {
            Some(m) => r is Err && r->Err_0@ == OfflineAchievementErrorView::InvalidEvent(m),
            None => r is Ok,
        },
{
    if is_blank(event.event_key.as_str()) {
        return Err(OfflineAchievementError::InvalidEvent(String::from_str("event_key must not be empty")));
    }
    if is_blank(event.occurred_at.as_str()) {
        return Err(OfflineAchievementError::InvalidEvent(String::from_str("occurred_at must not be empty")));
    }
    Ok(())
}

/// The first stored award of this achievement to this player.
fn find_existing_award(
    records: &[OfflineAchievementRecord],
    definition: &AchievementDefinition,
    context: &OfflineAchievementContext,
) -> (r: Option<usize>)
    ensures
        match first_award_from(records_view(records@), definition@, context@, 0) {
            Some(i) => r == Some(i as usize),
            None => r is None,
        },
        r matches Some(i) ==> i < records@.len() && first_award_from(
            records_view(records@),
            definition@,
            context@,
            0,
        ) == Some(i as int),
{
    proof {
        lemma_first_award_bounds(records_view(records@), definition@, context@, 0);
    }
    let ghost rv = records_view(records@);
    let mut i: usize = 0;
    while i < records.len()
        invariant
            i <= records@.len(),
            rv == records_view(records@),
            first_award_from(rv, definition@, context@, 0) == first_award_from(
                rv,
                definition@,
                context@,
                i as int,
            ),
        decreases records@.len() - i,
    {
        let record = &records[i];
        assert(rv[i as int] == record@);
        if str_eq(record.local_player_id.as_str(), context.local_player_id.as_str()) && str_eq(
            record.developer.as_str(),
            definition.developer(),
        ) && str_eq(record.game.as_str(), definition.game()) && str_eq(
            record.achievement_id.as_str(),
            definition.achievement_id(),
        ) {
            return Some(i);
        }
        i = i + 1;
    }
    None
}

/// Evaluates one game event and, when earned, persists one immutable
/// offline record; the record is a game-scoped receipt and later maps to
/// an online claim under the same claim id.
pub fn record_offline_achievement<S: OfflineAchievementStorage>(
    storage: &mut S,
    definition: &AchievementDefinition,
    event: &OfflineAchievementEvent,
    context: &OfflineAchievementContext,
) -> (r: Result<OfflineAwardOutcome, OfflineAchievementError>)
    ensures
        match offline_step(old(storage).stored(), definition@, event@, context@) {
            OfflineStep::Award(_) => {
                let (record, refusal) = final(storage).attempted().last();
                &&& final(storage).attempted() == old(storage).attempted().push((record, refusal))
                &&& awarded_record(record, definition@, event@, context@)
                &&& (refusal is None ==> old(storage).accepts(record))
                &&& (old(storage).stores_what_it_accepts() && old(storage).accepts(record) ==> refusal is None)
                &&& match refusal {
                    None => r is Ok && r->Ok_0@ == OfflineAwardOutcomeView::Awarded(record)
                        && final(storage).stored() == old(storage).stored().push(record),
                    Some(x) => r is Err && r->Err_0@ == x && final(storage).stored()
                        == old(storage).stored(),
                }
            },
            step => {
                &&& final(storage).stored() == old(storage).stored()
                &&& final(storage).attempted() == old(storage).attempted()
                &&& match step {
                    OfflineStep::Fail(err) => r is Err && r->Err_0@ == err,
                    OfflineStep::NoMatchingEvent => r is Ok && r->Ok_0@
                        == OfflineAwardOutcomeView::NoMatchingEvent,
                    OfflineStep::ThresholdNotMet { observed, required } => r is Ok && r->Ok_0@
                        == (OfflineAwardOutcomeView::ThresholdNotMet { observed, required }),
                    OfflineStep::Existing(i) => r is Ok && r->Ok_0@
                        == OfflineAwardOutcomeView::AlreadyAwarded(old(storage).stored()[i]),
                    OfflineStep::Award(_) => false,
                }
            },
        },
{
    validate_definition(definition)?;
    validate_context(context)?;
    validate_event(event)?;
    let expected_event = match &definition.accomplishment.event_key {
        Some(key) => key,
        None => {
            return Err(
                OfflineAchievementError::InvalidDefinition(
                    String::from_str("offline evaluation requires accomplishment.event_key"),
                ),
            );
        },
    };
    if !str_eq(event.event_key.as_str(), expected_event.as_str()) {
        return Ok(OfflineAwardOutcome::NoMatchingEvent);
    }
    if definition.is_repeatable() {
        return Err(OfflineAchievementError::RepeatableNotSupported);
    }
    let required = match definition.accomplishment.threshold {
        Some(t) => t,
        None => 1,
    };
    if required == 0 {
        return Err(
            OfflineAchievementError::InvalidDefinition(
                String::from_str("accomplishment.threshold must be greater than zero"),
            ),
        );
    }
    if event.value < required {
        return Ok(OfflineAwardOutcome::ThresholdNotMet { observed: event.value, required });
    }
    let records = storage.records();
    match find_existing_award(records, definition, context) {
        Some(i) => {
            assert(records_view(records@)[i as int] == records@[i as int]@);
            let existing = records[i].duplicate();
            return Ok(OfflineAwardOutcome::AlreadyAwarded(existing));
        },
        None => {},
    }
    let record = build_offline_record(definition, event, context, new_uuid_text(), new_uuid_text(), now_rfc3339());
    let appended = storage.append(&record);
    award_outcome(record, appended)
}

/// The record of an award of `definition` earned by `event` in `context`,
/// under the drawn local award id and claim id, recorded at `recorded_at`.
pub fn build_offline_record(
    definition: &AchievementDefinition,
    event: &OfflineAchievementEvent,
    context: &OfflineAchievementContext,
    local_award_id: String,
    claim_id: String,
    recorded_at: String,
) -> (r: OfflineAchievementRecord)
    ensures
        record_fields(r@, definition@, event@, context@),
        r@.local_award_id == local_award_id@,
        r@.claim_id == claim_id@,
        r@.recorded_at_local == recorded_at@,
{
    let claim_readiness = if !definition.allows_claim_review() {
        OfflineClaimReadiness::NotAllowedByIssuancePolicy
    } else if definition.accomplishment.requires_evidence && event.evidence.is_none() {
        OfflineClaimReadiness::MissingRequiredEvidence
    } else {
        OfflineClaimReadiness::Ready
    };
    let digest = match definition_digest(definition) {
        Ok(d) => d,
        Err(_) => String::new(),
    };
    let mut record = OfflineAchievementRecord {
        schema_version: OFFLINE_RECORD_SCHEMA_VERSION,
        local_award_id,
        claim_id,
        developer: String::from_str(definition.developer()),
        game: String::from_str(definition.game()),
        achievement_id: String::from_str(definition.achievement_id()),
        version: definition.version(),
        definition_digest: digest,
        local_player_id: copy_string(&context.local_player_id),
        save_id: copy_string(&context.save_id),
        installation_id: copy_string(&context.installation_id),
        session_id: copy_string(&context.session_id),
        client_sequence: context.client_sequence,
        earned_at_local: copy_string(&event.occurred_at),
        recorded_at_local: recorded_at,
        game_build: copy_string(&context.game_build),
        event_key: copy_string(&event.event_key),
        event_value: event.value,
        evidence: copy_opt_string(&event.evidence),
        claim_readiness,
        local_record_hash: String::new(),
    };
    let hash = offline_record_hash(&record);
    let ghost unhashed = record@;
    record.local_record_hash = hash;
    assert(OfflineAchievementRecordView { local_record_hash: Seq::empty(), ..record@ }
        == OfflineAchievementRecordView { local_record_hash: Seq::empty(), ..unhashed });
    record
}

/// The answer to an award once the storage answered the append of its
/// record: the record awarded where it was stored, the storage's error
/// where it was refused.
pub fn award_outcome(
    record: OfflineAchievementRecord,
    appended: Result<(), OfflineAchievementError>,
) -> (r: Result<OfflineAwardOutcome, OfflineAchievementError>)
    ensures
        match appended {
            Ok(_) => r is Ok && r->Ok_0@ == OfflineAwardOutcomeView::Awarded(record@),
            Err(x) => r is Err && r->Err_0@ == x@,
        },
{
    match appended {
        Ok(()) => Ok(OfflineAwardOutcome::Awarded(record)),
        Err(e) => Err(e),
    }
}

/// Every record that an evaluation writes passes the integrity check.
pub proof fn lemma_awarded_record_integrity(
    r: OfflineAchievementRecordView,
    d: AchievementDefinitionView,
    e: OfflineAchievementEventView,
    c: OfflineAchievementContextView,
)
    requires
        awarded_record(r, d, e, c),
    ensures
        record_integrity_ok(r),
{
}

} // verus!
