use eab::achievement::{
    AchievementAccomplishment, AchievementDefinition, AchievementIssuanceMode,
    AchievementRepeatability, AchievementVisibility,
};
use eab::claim::{EabClaimEnvelope, EabClaimEnvelopeError};
use eab::secure::{SecureMessage, SubmitClaimRequest};
use eab::offline::{
    award_outcome, build_offline_record, definition_digest, record_offline_achievement, FileOfflineAchievementStorage, JournalWriter, verify_offline_record_integrity,
    MemoryOfflineAchievementStorage, OfflineAchievementContext, OfflineAchievementError,
    OfflineAchievementEvent, OfflineAchievementRecord, OfflineAchievementStorage,
    OfflineAwardOutcome, OfflineClaimReadiness,
};
use sha2::{Digest, Sha256};

fn definition(version: u32) -> AchievementDefinition {
    AchievementDefinition::new(
        "pudding",
        "solo-flight",
        "first-flight",
        version,
        "First Flight",
        "Complete a successful flight",
    )
    .with_category("progression")
    .with_policy(
        AchievementVisibility::Private,
        AchievementRepeatability::OncePerPlayer,
        AchievementIssuanceMode::DirectAwardOrClaimReview,
    )
    .with_accomplishment(AchievementAccomplishment {
        summary: "Complete one successful flight".into(),
        event_key: Some("flight_completed".into()),
        threshold: Some(1),
        requires_evidence: false,
    })
}

fn context() -> OfflineAchievementContext {
    OfflineAchievementContext {
        local_player_id: "player-slot-1".into(),
        save_id: "save-1".into(),
        installation_id: "installation-1".into(),
        session_id: "session-1".into(),
        client_sequence: 7,
        game_build: "1.0.0".into(),
    }
}

fn event(value: u64) -> OfflineAchievementEvent {
    OfflineAchievementEvent {
        event_key: "flight_completed".into(),
        value,
        occurred_at: "2026-08-05T12:00:00Z".into(),
        evidence: None,
    }
}

#[test]
fn matching_event_creates_native_offline_eab_record() {
    let mut storage = MemoryOfflineAchievementStorage::new();

    let outcome = record_offline_achievement(&mut storage, &definition(1), &event(1), &context())
        .expect("record offline achievement");
    let OfflineAwardOutcome::Awarded(record) = outcome else {
        panic!("expected an offline award");
    };

    assert_eq!(record.achievement_id, "first-flight");
    assert_eq!(record.client_sequence, 7);
    assert_eq!(record.earned_at_local, "2026-08-05T12:00:00Z");
    assert!(!record.local_award_id.is_empty());
    assert!(!record.claim_id.is_empty());
    assert!(!record.definition_digest.is_empty());
    assert!(verify_offline_record_integrity(&record).expect("verify record"));
    assert_eq!(storage.records(), &[record]);
}

#[test]
fn event_below_threshold_does_not_write_a_record() {
    let mut definition = definition(1);
    definition.accomplishment.threshold = Some(3);
    let mut storage = MemoryOfflineAchievementStorage::new();

    let outcome = record_offline_achievement(&mut storage, &definition, &event(2), &context())
        .expect("evaluate event");

    assert_eq!(
        outcome,
        OfflineAwardOutcome::ThresholdNotMet {
            observed: 2,
            required: 3
        }
    );
    assert!(storage.records().is_empty());
}

#[test]
fn once_per_player_is_idempotent_across_definition_versions() {
    let mut storage = MemoryOfflineAchievementStorage::new();
    let first = record_offline_achievement(&mut storage, &definition(1), &event(1), &context())
        .expect("first award");
    let OfflineAwardOutcome::Awarded(first) = first else {
        panic!("expected first award");
    };

    let second = record_offline_achievement(&mut storage, &definition(2), &event(1), &context())
        .expect("idempotent second award");
    let OfflineAwardOutcome::AlreadyAwarded(second) = second else {
        panic!("expected existing award");
    };

    assert_eq!(second.claim_id, first.claim_id);
    assert_eq!(second.version, 1);
    assert_eq!(storage.records().len(), 1);
}

#[test]
fn missing_required_evidence_preserves_local_award_but_blocks_claim_readiness() {
    let mut definition = definition(1);
    definition.accomplishment.requires_evidence = true;
    let mut storage = MemoryOfflineAchievementStorage::new();

    let outcome = record_offline_achievement(&mut storage, &definition, &event(1), &context())
        .expect("local award should still be recorded");
    let OfflineAwardOutcome::Awarded(record) = outcome else {
        panic!("expected local award");
    };

    assert_eq!(
        record.claim_readiness,
        OfflineClaimReadiness::MissingRequiredEvidence
    );
    assert_eq!(storage.records().len(), 1);
}

#[test]
fn direct_award_only_definition_preserves_local_award_but_blocks_claim_readiness() {
    let mut definition = definition(1);
    definition.policy.issuance_mode = AchievementIssuanceMode::DirectAwardOnly;
    let mut storage = MemoryOfflineAchievementStorage::new();

    let outcome = record_offline_achievement(&mut storage, &definition, &event(1), &context())
        .expect("local award should still be recorded");
    let OfflineAwardOutcome::Awarded(record) = outcome else {
        panic!("expected local award");
    };

    assert_eq!(
        record.claim_readiness,
        OfflineClaimReadiness::NotAllowedByIssuancePolicy
    );
    assert_eq!(storage.records().len(), 1);
}

#[test]
fn non_matching_event_and_invalid_inputs_are_reported() {
    let mut storage = MemoryOfflineAchievementStorage::new();
    let mut other = event(5);
    other.event_key = "landing".into();
    assert_eq!(
        record_offline_achievement(&mut storage, &definition(1), &other, &context()).unwrap(),
        OfflineAwardOutcome::NoMatchingEvent
    );

    let mut blank = context();
    blank.save_id = " \t".into();
    match record_offline_achievement(&mut storage, &definition(1), &event(1), &blank) {
        Err(OfflineAchievementError::InvalidContext(message)) => {
            assert_eq!(message, "save_id must not be empty")
        }
        other => panic!("unexpected {:?}", other),
    }

    let mut repeatable = definition(1);
    repeatable.policy.repeatability = AchievementRepeatability::Repeatable;
    assert!(matches!(
        record_offline_achievement(&mut storage, &repeatable, &event(1), &context()),
        Err(OfflineAchievementError::RepeatableNotSupported)
    ));

    let mut zero = definition(1);
    zero.accomplishment.threshold = Some(0);
    match record_offline_achievement(&mut storage, &zero, &event(1), &context()) {
        Err(OfflineAchievementError::InvalidDefinition(message)) => {
            assert_eq!(message, "accomplishment.threshold must be greater than zero")
        }
        other => panic!("unexpected {:?}", other),
    }

    let unversioned = AchievementDefinition::new("pudding", "solo-flight", "x", 0, "n", "d");
    match record_offline_achievement(&mut storage, &unversioned, &event(1), &context()) {
        Err(OfflineAchievementError::InvalidDefinition(message)) => {
            assert_eq!(message, "version must be greater than zero")
        }
        other => panic!("unexpected {:?}", other),
    }
    assert!(storage.records().is_empty());
}

#[test]
fn definition_digest_is_sha256_of_the_definition_json() {
    let json = [
        "{\"developer\":\"pudding\",\"game\":\"solo-flight\",\"achievement_id\":\"first-flight\",",
        "\"version\":1,\"name\":\"First Flight\",\"description\":\"Complete a successful flight\",",
        "\"category\":\"progression\",\"visibility\":\"private\",\"repeatability\":\"once_per_player\",",
        "\"issuance_mode\":\"direct_award_or_claim_review\",\"accomplishment\":{\"summary\":",
        "\"Complete one successful flight\",\"event_key\":\"flight_completed\",\"threshold\":1,",
        "\"requires_evidence\":false}}",
    ]
    .concat();
    let expected = hex::encode(Sha256::digest(json.as_bytes()));
    assert_eq!(definition_digest(&definition(1)).unwrap(), expected);
}

#[test]
fn tampered_records_fail_integrity_and_storage() {
    let mut storage = MemoryOfflineAchievementStorage::new();
    let OfflineAwardOutcome::Awarded(record) =
        record_offline_achievement(&mut storage, &definition(1), &event(1), &context()).unwrap()
    else {
        panic!("expected award");
    };
    let mut tampered: OfflineAchievementRecord = record.clone();
    tampered.event_value = 999;
    assert!(!verify_offline_record_integrity(&tampered).unwrap());
    let mut fresh = MemoryOfflineAchievementStorage::new();
    assert!(matches!(fresh.append(&tampered), Err(OfflineAchievementError::Integrity)));
    assert!(matches!(
        storage.append(&record),
        Err(OfflineAchievementError::DuplicateIdentity(_))
    ));
    assert!(fresh.append(&record).is_ok());
}

fn claim_record(direct_award_only: bool) -> OfflineAchievementRecord {
    let mut definition = AchievementDefinition::new(
        "pudding",
        "solo-flight",
        "first-flight",
        1,
        "First Flight",
        "Complete a successful flight",
    )
    .with_accomplishment(AchievementAccomplishment {
        summary: "Complete one successful flight".into(),
        event_key: Some("flight_completed".into()),
        threshold: Some(1),
        requires_evidence: false,
    });
    if direct_award_only {
        definition.policy.issuance_mode = AchievementIssuanceMode::DirectAwardOnly;
    }
    let event = OfflineAchievementEvent {
        event_key: "flight_completed".into(),
        value: 1,
        occurred_at: "2026-08-05T12:00:00Z".into(),
        evidence: Some("local run receipt".into()),
    };
    let mut storage = MemoryOfflineAchievementStorage::new();
    let outcome = record_offline_achievement(&mut storage, &definition, &event, &context())
        .expect("offline award");
    let OfflineAwardOutcome::Awarded(record) = outcome else {
        panic!("expected award");
    };
    record
}

#[test]
fn canonical_envelope_rejects_tampered_record() {
    let mut record = claim_record(false);
    record.game_build = "tampered-build".into();

    let error = EabClaimEnvelope::from_offline_record(&record).expect_err("tampered record must fail");

    assert!(matches!(error, EabClaimEnvelopeError::InvalidRecord(_)));
}

#[test]
fn canonical_envelope_rejects_record_that_is_not_claim_ready() {
    let record = claim_record(true);

    let error = EabClaimEnvelope::from_offline_record(&record).expect_err("non-ready record must fail");

    assert!(matches!(error, EabClaimEnvelopeError::NotReady(_)));
}

#[test]
fn canonical_envelope_preserves_the_complete_offline_record() {
    let record = claim_record(false);
    let envelope = EabClaimEnvelope::from_offline_record(&record).expect("canonical envelope");
    assert_eq!(envelope.claim_id(), record.claim_id);
    assert_eq!(envelope.record, record);
    let message = SecureMessage::SubmitClaimRequest(SubmitClaimRequest {
        request_id: [7; 16],
        session_token: "session".into(),
        envelope: envelope.clone(),
    });
    let frame = message.encode().expect("encode envelope");
    match SecureMessage::decode(&frame).expect("decode envelope") {
        SecureMessage::SubmitClaimRequest(decoded) => assert_eq!(decoded.envelope, envelope),
        _ => panic!("expected a claim submission"),
    }
    let mut wrong = envelope.clone();
    wrong.schema_version = 2;
    assert!(matches!(
        wrong.validate(),
        Err(EabClaimEnvelopeError::UnsupportedSchemaVersion(2))
    ));
}

fn awarded_record() -> OfflineAchievementRecord {
    let mut storage = MemoryOfflineAchievementStorage::new();
    match record_offline_achievement(&mut storage, &definition(1), &event(1), &context()) {
        Ok(OfflineAwardOutcome::Awarded(record)) => record,
        _ => panic!("expected an offline award"),
    }
}

/// Keeps written lines in memory, or refuses to write.
struct Lines {
    written: Vec<String>,
    fail: bool,
}

impl JournalWriter for Lines {
    fn write_record(&mut self, path: &str, record: &OfflineAchievementRecord) -> Result<(), OfflineAchievementError> {
        if self.fail {
            return Err(OfflineAchievementError::Storage(format!("{path} is read-only")));
        }
        self.written.push(record.claim_id.clone());
        Ok(())
    }
}

fn lines() -> Lines {
    Lines { written: Vec::new(), fail: false }
}

#[test]
fn journal_reopens_only_intact_records_with_their_own_identity() {
    let record = awarded_record();
    let journal = FileOfflineAchievementStorage::open_records("journal.jsonl".into(), vec![record.clone()], lines())
        .expect("intact journal");
    assert_eq!(journal.path(), "journal.jsonl");
    assert_eq!(journal.records(), &[record.clone()]);

    let mut tampered = record.clone();
    tampered.event_value = 999;
    assert!(matches!(
        FileOfflineAchievementStorage::open_records("journal.jsonl".into(), vec![record.clone(), tampered], lines()),
        Err(OfflineAchievementError::Integrity)
    ));
    match FileOfflineAchievementStorage::open_records(
        "journal.jsonl".into(),
        vec![record.clone(), record.clone()],
        lines(),
    ) {
        Err(OfflineAchievementError::DuplicateIdentity(claim_id)) => assert_eq!(claim_id, record.claim_id),
        _ => panic!("expected a duplicate identity"),
    }
}

#[test]
fn journal_keeps_a_record_only_once_its_line_is_written() {
    let mut journal =
        FileOfflineAchievementStorage::open_records("journal.jsonl".into(), Vec::new(), lines()).expect("empty journal");
    let outcome = record_offline_achievement(&mut journal, &definition(1), &event(1), &context()).expect("award");
    let OfflineAwardOutcome::Awarded(record) = outcome else {
        panic!("expected an offline award");
    };
    assert_eq!(journal.records(), &[record.clone()]);
    let retry = record_offline_achievement(&mut journal, &definition(1), &event(1), &context()).expect("retry");
    assert!(matches!(retry, OfflineAwardOutcome::AlreadyAwarded(_)));
    assert!(matches!(journal.append(&record), Err(OfflineAchievementError::DuplicateIdentity(_))));

    let mut read_only = FileOfflineAchievementStorage::open_records(
        "journal.jsonl".into(),
        Vec::new(),
        Lines { written: Vec::new(), fail: true },
    )
    .expect("empty journal");
    assert!(matches!(read_only.append(&record), Err(OfflineAchievementError::Storage(_))));
    assert!(read_only.records().is_empty());
}

#[test]
fn a_record_is_built_from_the_drawn_ids_and_answered_as_the_storage_answers() {
    let record = build_offline_record(
        &definition(1),
        &event(1),
        &context(),
        "award-id".into(),
        "claim-id".into(),
        "2026-08-05T12:00:01Z".into(),
    );
    assert_eq!(record.local_award_id, "award-id");
    assert_eq!(record.claim_id, "claim-id");
    assert_eq!(record.recorded_at_local, "2026-08-05T12:00:01Z");
    assert_eq!(record.definition_digest, definition_digest(&definition(1)).unwrap());
    assert_eq!(record.definition_digest.len(), 64);
    assert!(record.definition_digest.chars().all(|c| c.is_ascii_digit() || ('a'..='f').contains(&c)));
    assert_eq!(verify_offline_record_integrity(&record).unwrap(), true);
    match award_outcome(record.clone(), Ok(())) {
        Ok(OfflineAwardOutcome::Awarded(r)) => assert_eq!(r, record),
        _ => panic!("expected the award"),
    }
    assert!(matches!(
        award_outcome(record, Err(OfflineAchievementError::Integrity)),
        Err(OfflineAchievementError::Integrity)
    ));
}
