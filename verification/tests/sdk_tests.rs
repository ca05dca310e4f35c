use eab::sdk::{lookup_failure, LookupFailure};
use eab::achievement::{AchievementAccomplishment, AchievementDefinition, AchievementIssuanceMode};
use eab::ledger::Entitlement;
use eab::offline::{
    record_offline_achievement, MemoryOfflineAchievementStorage, OfflineAchievementContext,
    OfflineAchievementEvent, OfflineAwardOutcome,
};
use eab::sdk::{
    normalize_base_url, verify_receipt_integrity, AwardReceipt, ReceiptDetails, SdkError,
    SubmitAchievementClaimRequest,
};
use sha2::{Digest, Sha256};

#[test]
fn offline_record_maps_to_online_claim_without_changing_identity() {
    let definition = AchievementDefinition::new(
        "pudding",
        "solo-flight",
        "first-flight",
        1,
        "First Flight",
        "Complete a successful flight",
    )
    .with_accomplishment(AchievementAccomplishment {
        summary: "Complete one successful flight".into(),
        event_key: Some("flight_completed".into()),
        threshold: Some(1),
        requires_evidence: false,
    });
    let event = OfflineAchievementEvent {
        event_key: "flight_completed".into(),
        value: 1,
        occurred_at: "2026-08-05T12:00:00Z".into(),
        evidence: Some("local run receipt".into()),
    };
    let context = OfflineAchievementContext {
        local_player_id: "player-slot-1".into(),
        save_id: "save-1".into(),
        installation_id: "installation-1".into(),
        session_id: "session-1".into(),
        client_sequence: 7,
        game_build: "1.0.0".into(),
    };
    let mut storage = MemoryOfflineAchievementStorage::new();
    let outcome = record_offline_achievement(&mut storage, &definition, &event, &context)
        .expect("offline award");
    let OfflineAwardOutcome::Awarded(record) = outcome else {
        panic!("expected award");
    };
    let request = SubmitAchievementClaimRequest::from_offline_record(&record).expect("claim-ready record");
    assert_eq!(request.claim_id, record.claim_id);
    assert_eq!(request.session_id, record.session_id);
    assert_eq!(request.client_sequence, record.client_sequence);
    assert_eq!(request.claimed_at, record.earned_at_local);
    assert_eq!(request.achievement_id, record.achievement_id);
    assert_eq!(request.evidence, record.evidence);
}

#[test]
fn sdk_refuses_to_submit_a_local_record_that_is_not_claim_ready() {
    let mut definition = AchievementDefinition::new(
        "pudding",
        "solo-flight",
        "local-only-flight",
        1,
        "Local Flight",
        "Complete a local-only flight",
    )
    .with_accomplishment(AchievementAccomplishment {
        summary: "Complete one local-only flight".into(),
        event_key: Some("flight_completed".into()),
        threshold: Some(1),
        requires_evidence: false,
    });
    definition.policy.issuance_mode = AchievementIssuanceMode::DirectAwardOnly;
    let event = OfflineAchievementEvent {
        event_key: "flight_completed".into(),
        value: 1,
        occurred_at: "2026-08-05T12:00:00Z".into(),
        evidence: None,
    };
    let context = OfflineAchievementContext {
        local_player_id: "player-slot-1".into(),
        save_id: "save-1".into(),
        installation_id: "installation-1".into(),
        session_id: "session-1".into(),
        client_sequence: 8,
        game_build: "1.0.0".into(),
    };
    let mut storage = MemoryOfflineAchievementStorage::new();
    let outcome = record_offline_achievement(&mut storage, &definition, &event, &context)
        .expect("local award");
    let OfflineAwardOutcome::Awarded(record) = outcome else {
        panic!("expected local award");
    };
    let error = SubmitAchievementClaimRequest::from_offline_record(&record)
        .expect_err("direct-only local record must not become a claim");
    assert!(matches!(error, SdkError::OfflineClaimNotReady(ref m) if m == "NotAllowedByIssuancePolicy"));

    let mut tampered = record.clone();
    tampered.claim_readiness = eab::offline::OfflineClaimReadiness::Ready;
    let error = SubmitAchievementClaimRequest::from_offline_record(&tampered).expect_err("tampered");
    assert!(matches!(error, SdkError::OfflineRecord(ref m) if m == "integrity verification failed"));
}

#[test]
fn base_urls_lose_their_trailing_slashes() {
    assert_eq!(normalize_base_url("http://127.0.0.1:1//"), "http://127.0.0.1:1");
    assert_eq!(normalize_base_url("http://host/api"), "http://host/api");
    assert_eq!(normalize_base_url("///"), "");
}

#[test]
fn receipt_integrity_checks_the_hash_of_the_tagged_details() {
    let entitlement = Entitlement {
        developer: "dev".into(),
        game: "game".into(),
        entitlement_id: "ent1".into(),
        version: 1,
        item_type: "item".into(),
        item_id: "i1".into(),
        quantity: 2,
        metadata: "desc".into(),
        expiration_date: None,
    };
    let json = "{\"Entitlement\":{\"developer\":\"dev\",\"game\":\"game\",\"entitlement_id\":\"ent1\",\"version\":1,\"item_type\":\"item\",\"item_id\":\"i1\",\"quantity\":2,\"metadata\":\"desc\",\"expiration_date\":null}}";
    let hash = hex::encode(Sha256::digest(json.as_bytes()));
    let mut receipt = AwardReceipt {
        player_id: "p".into(),
        transaction_id: "t".into(),
        transaction_type: "entitlement".into(),
        timestamp: "2026-01-01T00:00:00Z".into(),
        data_hash: hash,
        block_hash: "00ab".into(),
        details: ReceiptDetails::Entitlement(entitlement),
    };
    assert!(verify_receipt_integrity(&receipt).unwrap());
    receipt.block_hash = String::new();
    assert!(!verify_receipt_integrity(&receipt).unwrap());
    receipt.block_hash = "00ab".into();
    receipt.data_hash = "0".repeat(64);
    assert!(!verify_receipt_integrity(&receipt).unwrap());

    let raw = "{\"profile_hash\":\"x\"}";
    let tagged = format!("{{\"ProfileChange\":{raw}}}");
    receipt.details = ReceiptDetails::ProfileChange(raw.into());
    receipt.data_hash = hex::encode(Sha256::digest(tagged.as_bytes()));
    assert!(verify_receipt_integrity(&receipt).unwrap());
}

#[test]
fn a_lookup_answered_not_found_gives_nothing_and_other_statuses_fail() {
    assert_eq!(lookup_failure(404), LookupFailure::Absent);
    assert_eq!(lookup_failure(500), LookupFailure::Failed(500));
    assert_eq!(lookup_failure(401), LookupFailure::Failed(401));
}
