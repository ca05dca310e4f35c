use eab::achievement::{
    AchievementAccomplishment, AchievementAwardMetadata, AchievementDefinition,
    AchievementIssuanceMode, AchievementRepeatability, AchievementVisibility,
};
use eab::claim::{EabClaimDecisionCode, EabClaimDisposition, EabClaimEnvelope};
use eab::hd::{hamming_distance, BitVec};
use eab::ledger::{Block, TransactionData, APP_VERSION};
use eab::offline::{
    record_offline_achievement, MemoryOfflineAchievementStorage, OfflineAchievementContext,
    OfflineAchievementEvent, OfflineAwardOutcome,
};
use eab::profile::{
    AchievementClaim, AchievementClaimInput, AchievementClaimReviewAction,
    AchievementClaimStatus, LedgerStorage, order_achievement_claims, PlayerProfileService, ProfileError, ProfileErrorKind,
    DEFAULT_DIM,
};
use eab::registry::EntitlementDefinition;
use std::cell::RefCell;
use std::collections::HashMap;
use std::rc::Rc;

#[derive(Default)]
struct Shelves {
    blocks: HashMap<u128, Vec<Block>>,
    claims: HashMap<u128, Vec<AchievementClaim>>,
    order: Vec<u128>,
    list_players: bool,
    save_calls: usize,
    fail_on_save_call: usize,
}

/// Keeps blocks and claims in memory; clones share the same shelves, so a
/// service built again over a clone sees what an earlier one wrote.
#[derive(Clone)]
struct MemoryStorage {
    shelves: Rc<RefCell<Shelves>>,
}

impl MemoryStorage {
    fn new() -> Self {
        MemoryStorage {
            shelves: Rc::new(RefCell::new(Shelves { list_players: true, ..Shelves::default() })),
        }
    }

    fn flaky(fail_on_save_call: usize) -> Self {
        MemoryStorage {
            shelves: Rc::new(RefCell::new(Shelves {
                fail_on_save_call,
                ..Shelves::default()
            })),
        }
    }

    fn blocks_of(&self, player: &str) -> Vec<Block> {
        let id = uuid::Uuid::parse_str(player).unwrap().as_u128();
        self.shelves.borrow().blocks.get(&id).cloned().unwrap_or_default()
    }

    fn replace_blocks(&self, player: &str, blocks: Vec<Block>) {
        let id = uuid::Uuid::parse_str(player).unwrap().as_u128();
        self.shelves.borrow_mut().blocks.insert(id, blocks);
    }
}

impl LedgerStorage for MemoryStorage {
    fn append_block(&self, player_id: u128, block: &Block) -> Result<(), ProfileError> {
        let mut shelves = self.shelves.borrow_mut();
        if !shelves.order.contains(&player_id) {
            shelves.order.push(player_id);
        }
        shelves.blocks.entry(player_id).or_default().push(block.clone());
        Ok(())
    }

    fn load_blocks(&self, player_id: u128) -> Result<Vec<Block>, ProfileError> {
        Ok(self.shelves.borrow().blocks.get(&player_id).cloned().unwrap_or_default())
    }

    fn list_player_ids(&self) -> Result<Vec<u128>, ProfileError> {
        let shelves = self.shelves.borrow();
        if shelves.list_players {
            Ok(shelves.order.clone())
        } else {
            Ok(Vec::new())
        }
    }

    fn load_achievement_claims(&self, player_id: u128) -> Result<Vec<AchievementClaim>, ProfileError> {
        Ok(self.shelves.borrow().claims.get(&player_id).cloned().unwrap_or_default())
    }

    fn save_achievement_claims(
        &self,
        player_id: u128,
        claims: &[AchievementClaim],
    ) -> Result<(), ProfileError> {
        let mut shelves = self.shelves.borrow_mut();
        shelves.save_calls += 1;
        if shelves.save_calls == shelves.fail_on_save_call {
            return Err(ProfileError::new(
                ProfileErrorKind::Other,
                "simulated claim persistence failure",
            ));
        }
        if !shelves.order.contains(&player_id) {
            shelves.order.push(player_id);
        }
        shelves.claims.insert(player_id, claims.to_vec());
        Ok(())
    }
}

fn new_player() -> String {
    uuid::Uuid::new_v4().to_string()
}

fn entitlement(id: &str, version: u32, item: &str) -> EntitlementDefinition {
    EntitlementDefinition {
        developer: "dev".into(),
        game: "game".into(),
        entitlement_id: id.into(),
        version,
        item_type: "item".into(),
        item_id: item.into(),
        description: "desc".into(),
    }
}

fn claim_input(claim_id: &str, session: &str, sequence: u64, at: &str, evidence: Option<&str>) -> AchievementClaimInput {
    AchievementClaimInput {
        developer: "dev".into(),
        game: "game".into(),
        achievement_id: "ach-claim".into(),
        version: 1,
        claim_id: claim_id.into(),
        session_id: session.into(),
        client_sequence: sequence,
        claimed_at: at.into(),
        evidence: evidence.map(|e| e.to_string()),
    }
}

#[test]
fn test_profile_creation_and_update() {
    let storage = MemoryStorage::new();
    let mut service = PlayerProfileService::new(storage);
    let pid = new_player();
    service.create_profile(&pid, "Alice").expect("create profile");
    let vec = BitVec::seed("TEST", DEFAULT_DIM);
    service.set_vector(&pid, vec.clone()).expect("set vector");
    let profile = service.get_profile(&pid).expect("missing profile");
    assert_eq!(hamming_distance(&profile.profile_vec, &vec), 0);
    assert_eq!(service.ledger.chain.len(), 3);
    assert!(service.ledger.is_valid_chain());
    assert_eq!(service.ledger.chain[1].app_version, APP_VERSION);
}

#[test]
fn test_award_achievement() {
    let mut service = PlayerProfileService::new(MemoryStorage::new());
    let pid = new_player();
    service.create_profile(&pid, "Bob").expect("create profile");
    let ach = AchievementDefinition::new("dev", "game", "ach1", 1, "First", "Earned");
    let receipt = service.award_achievement(&pid, &ach).expect("award achievement");
    assert_eq!(receipt.player_id, pid);
    assert_eq!(receipt.transaction_type, "achievement");
    assert_eq!(service.ledger.chain.len(), 3);
    if let TransactionData::Achievement(a) = &service.ledger.chain[2].transactions[0].details {
        assert_eq!(a.achievement_id, "ach1");
        assert_eq!(a.version, 1);
        assert_eq!(a.criteria, "Earned");
    } else {
        panic!("expected achievement transaction");
    }
}

#[test]
fn test_award_achievement_preserves_modeled_criteria_and_policy() {
    let mut service = PlayerProfileService::new(MemoryStorage::new());
    let pid = new_player();
    service.create_profile(&pid, "Bob").expect("create profile");
    let ach = AchievementDefinition::new(
        "dev",
        "game",
        "first-flight",
        1,
        "First Flight",
        "Complete your first successful run",
    )
    .with_category("progression")
    .with_policy(
        AchievementVisibility::PublicProof,
        AchievementRepeatability::OncePerPlayer,
        AchievementIssuanceMode::DirectAwardOrClaimReview,
    )
    .with_accomplishment(AchievementAccomplishment {
        summary: "Complete one successful run".into(),
        event_key: Some("run_completed".into()),
        threshold: Some(1),
        requires_evidence: false,
    });
    service.award_achievement(&pid, &ach).expect("award achievement");
    if let TransactionData::Achievement(a) = &service.ledger.chain[2].transactions[0].details {
        assert_eq!(a.criteria, "Complete one successful run");
        let metadata: serde_json::Value = serde_json::from_str(&a.metadata).expect("parse metadata");
        assert_eq!(metadata["category"], "progression");
        assert_eq!(metadata["visibility"], "public_proof");
        assert_eq!(metadata["repeatability"], "once_per_player");
        assert_eq!(metadata["issuance_mode"], "direct_award_or_claim_review");
        let expected = AchievementAwardMetadata {
            category: "progression".into(),
            visibility: AchievementVisibility::PublicProof,
            repeatability: AchievementRepeatability::OncePerPlayer,
            issuance_mode: AchievementIssuanceMode::DirectAwardOrClaimReview,
        };
        assert_eq!(a.metadata, eab::achievement::award_metadata_json(&expected));
    } else {
        panic!("expected achievement transaction");
    }
}

#[test]
fn test_award_entitlement() {
    let mut service = PlayerProfileService::new(MemoryStorage::new());
    let pid = new_player();
    service.create_profile(&pid, "Eve").expect("create profile");
    let receipt = service
        .award_entitlement(&pid, &entitlement("ent1", 1, "i1"), 1, None)
        .expect("award entitlement");
    assert_eq!(receipt.player_id, pid);
    assert_eq!(receipt.transaction_type, "entitlement");
    assert_eq!(service.ledger.chain.len(), 3);
    if let TransactionData::Entitlement(e) = &service.ledger.chain[2].transactions[0].details {
        assert_eq!(e.entitlement_id, "ent1");
        assert_eq!(e.version, 1);
        assert!(e.expiration_date.is_none());
    } else {
        panic!("expected entitlement transaction");
    }
}

#[test]
fn test_restart_with_persisted_data() {
    let storage = MemoryStorage::new();
    let mut service = PlayerProfileService::new(storage.clone());
    let pid = new_player();
    service.create_profile(&pid, "Restart").expect("create profile");
    let vec = BitVec::seed("TEST", DEFAULT_DIM);
    service.set_vector(&pid, vec.clone()).expect("set vector");
    let chain_len = service.ledger.chain.len();
    drop(service);

    let service = PlayerProfileService::new(storage);
    assert_eq!(service.ledger.chain.len(), chain_len);
    let profile = service.get_profile(&pid).expect("missing profile");
    assert_eq!(profile.name, "Restart");
    assert_eq!(hamming_distance(&profile.profile_vec, &vec), 0);
}

#[test]
fn test_restart_persists_rewards_state() {
    let storage = MemoryStorage::new();
    let mut service = PlayerProfileService::new(storage.clone());
    let pid = new_player();
    service.create_profile(&pid, "Rewards").expect("create profile");
    let ach = AchievementDefinition::new("dev", "game", "ach2", 2, "Second", "Earned");
    service
        .award_entitlement(&pid, &entitlement("ent2", 2, "i2"), 2, None)
        .expect("award entitlement");
    service.award_achievement(&pid, &ach).expect("award achievement");
    let chain_len = service.ledger.chain.len();
    drop(service);

    let service = PlayerProfileService::new(storage);
    assert_eq!(service.ledger.chain.len(), chain_len);
    let rewards = service.get_reward_state(&pid).expect("missing rewards");
    assert_eq!(rewards.entitlements.len(), 1);
    assert_eq!(rewards.achievements.len(), 1);
    assert_eq!(rewards.entitlements[0].entitlement_id, "ent2");
    assert_eq!(rewards.achievements[0].achievement_id, "ach2");
}

#[test]
fn test_rejects_tampered_blocks_on_restart() {
    let storage = MemoryStorage::new();
    let mut service = PlayerProfileService::new(storage.clone());
    let pid = new_player();
    service.create_profile(&pid, "Mallory").expect("create profile");
    let vec = BitVec::seed("TAMPERED", DEFAULT_DIM);
    service.set_vector(&pid, vec.clone()).expect("set vector");
    drop(service);

    let mut blocks = storage.blocks_of(&pid);
    assert!(blocks.len() >= 2, "expected at least two blocks");
    blocks[1].previous_block_hash = "tampered".to_string();
    storage.replace_blocks(&pid, blocks);

    let service = PlayerProfileService::new(storage);
    assert_eq!(service.ledger.chain.len(), 2);
    let profile = service.get_profile(&pid).expect("missing profile");
    let default_vec = BitVec::new(DEFAULT_DIM);
    assert_eq!(hamming_distance(&profile.profile_vec, &default_vec), 0);
    assert_ne!(hamming_distance(&profile.profile_vec, &vec), 0);
}

#[test]
fn test_rejects_out_of_order_blocks() {
    let storage = MemoryStorage::new();
    let mut service = PlayerProfileService::new(storage.clone());
    let pid = new_player();
    service.create_profile(&pid, "OutOfOrder").expect("create profile");
    let vec1 = BitVec::seed("ORDER1", DEFAULT_DIM);
    let vec2 = BitVec::seed("ORDER2", DEFAULT_DIM);
    service.set_vector(&pid, vec1.clone()).expect("set vector 1");
    service.set_vector(&pid, vec2.clone()).expect("set vector 2");
    drop(service);

    let mut blocks = storage.blocks_of(&pid);
    assert!(blocks.len() >= 3, "expected at least three blocks");
    blocks.swap(1, 2);
    storage.replace_blocks(&pid, blocks);

    let service = PlayerProfileService::new(storage);
    assert_eq!(service.ledger.chain.len(), 3);
    let profile = service.get_profile(&pid).expect("missing profile");
    assert_eq!(hamming_distance(&profile.profile_vec, &vec1), 0);
    assert_ne!(hamming_distance(&profile.profile_vec, &vec2), 0);
}

#[test]
fn test_submit_achievement_claim_is_idempotent_and_not_reward_mutation() {
    let mut service = PlayerProfileService::new(MemoryStorage::new());
    let pid = new_player();
    service.create_profile(&pid, "Claimant").expect("create profile");
    let input = claim_input("claim-1", "session-1", 7, "2026-03-22T09:00:00Z", Some("offline-run"));
    let first = service.submit_achievement_claim(&pid, input.clone()).expect("submit claim");
    let second = service.submit_achievement_claim(&pid, input).expect("submit duplicate claim");
    assert_eq!(first, second);
    let claims = service.get_achievement_claims(&pid).expect("missing claims");
    assert_eq!(claims.len(), 1);
    let rewards = service.get_reward_state(&pid).expect("missing rewards");
    assert!(rewards.achievements.is_empty());
    assert_eq!(service.ledger.chain.len(), 2);
}

#[test]
fn test_achievement_claims_are_player_scoped() {
    let mut service = PlayerProfileService::new(MemoryStorage::new());
    let player_one = new_player();
    let player_two = new_player();
    service.create_profile(&player_one, "One").expect("create profile one");
    service.create_profile(&player_two, "Two").expect("create profile two");
    let mut base_claim = claim_input("claim-same", "session-1", 1, "2026-03-22T09:00:00Z", None);
    base_claim.achievement_id = "ach-shared-id".into();
    service
        .submit_achievement_claim(&player_one, base_claim.clone())
        .expect("submit claim one");
    service
        .submit_achievement_claim(&player_two, base_claim)
        .expect("submit claim two");
    assert_eq!(service.get_achievement_claims(&player_one).expect("claims one").len(), 1);
    assert_eq!(service.get_achievement_claims(&player_two).expect("claims two").len(), 1);
}

#[test]
fn test_achievement_claims_persist_across_restart() {
    let storage = MemoryStorage::new();
    let mut service = PlayerProfileService::new(storage.clone());
    let pid = new_player();
    service.create_profile(&pid, "RestartClaims").expect("create profile");
    service
        .submit_achievement_claim(
            &pid,
            claim_input("claim-restart", "session-restart", 9, "2026-03-22T10:00:00Z", Some("offline")),
        )
        .expect("submit claim");
    drop(service);

    let service = PlayerProfileService::new(storage);
    let claims = service.get_achievement_claims(&pid).expect("missing claims");
    assert_eq!(claims.len(), 1);
    assert_eq!(claims[0].claim_id, "claim-restart");
    assert_eq!(claims[0].status, AchievementClaimStatus::Pending);
}

#[test]
fn test_review_achievement_claim_does_not_double_award_if_final_claim_persist_fails() {
    let storage = MemoryStorage::flaky(3);
    let mut service = PlayerProfileService::new(storage);
    let pid = new_player();
    service.create_profile(&pid, "Curator").expect("create profile");
    service
        .submit_achievement_claim(
            &pid,
            claim_input("claim-review", "session-review", 1, "2026-03-22T11:00:00Z", Some("offline")),
        )
        .expect("submit claim");
    let definition = AchievementDefinition::new("dev", "game", "ach-claim", 1, "Claimed", "Claimed and validated");

    let error = service
        .review_achievement_claim(
            &pid,
            "claim-review",
            "dev",
            AchievementClaimReviewAction::Promote,
            Some("consortium validated".into()),
            Some(&definition),
        )
        .expect_err("final claim persistence should fail");
    assert_eq!(error.kind(), ProfileErrorKind::Other);
    assert_eq!(service.get_reward_state(&pid).expect("rewards").achievements.len(), 1);
    assert_eq!(
        service.get_achievement_claim(&pid, "claim-review").expect("claim").status,
        AchievementClaimStatus::Promoted
    );

    let (claim, award) = service
        .review_achievement_claim(
            &pid,
            "claim-review",
            "dev",
            AchievementClaimReviewAction::Promote,
            Some("retry should be idempotent".into()),
            Some(&definition),
        )
        .expect("retry promote claim");
    assert_eq!(claim.status, AchievementClaimStatus::Promoted);
    assert!(award.is_none());
    assert_eq!(service.get_reward_state(&pid).expect("rewards").achievements.len(), 1);
}

#[test]
fn test_review_achievement_claim_promotes_and_persists_status() {
    let storage = MemoryStorage::new();
    let mut service = PlayerProfileService::new(storage.clone());
    let pid = new_player();
    service.create_profile(&pid, "Curator").expect("create profile");
    service
        .submit_achievement_claim(
            &pid,
            claim_input("claim-review", "session-review", 1, "2026-03-22T11:00:00Z", Some("offline")),
        )
        .expect("submit claim");
    let definition = AchievementDefinition::new("dev", "game", "ach-claim", 1, "Claimed", "Claimed and validated");
    let (claim, award) = service
        .review_achievement_claim(
            &pid,
            "claim-review",
            "dev",
            AchievementClaimReviewAction::Promote,
            Some("consortium validated".into()),
            Some(&definition),
        )
        .expect("promote claim");
    assert_eq!(claim.status, AchievementClaimStatus::Promoted);
    assert_eq!(claim.reviewer.as_deref(), Some("dev"));
    assert_eq!(claim.review_note.as_deref(), Some("consortium validated"));
    assert!(award.is_some());
    assert_eq!(service.get_reward_state(&pid).expect("rewards").achievements.len(), 1);
    drop(service);

    let service = PlayerProfileService::new(storage);
    let claims = service.get_achievement_claims(&pid).expect("claims");
    assert_eq!(claims.len(), 1);
    assert_eq!(claims[0].status, AchievementClaimStatus::Promoted);
    assert!(claims[0].awarded_transaction_id.is_some());
}

#[test]
fn test_set_vector_missing_profile() {
    let mut service = PlayerProfileService::new(MemoryStorage::new());
    let pid = new_player();
    let vec = BitVec::seed("TEST", DEFAULT_DIM);
    let res = service.set_vector(&pid, vec);
    assert!(res.is_err());
}

#[test]
fn test_award_achievement_missing_profile() {
    let mut service = PlayerProfileService::new(MemoryStorage::new());
    let pid = new_player();
    let def = AchievementDefinition::new("d", "g", "a", 1, "n", "desc");
    let res = service.award_achievement(&pid, &def);
    let err = res.expect_err("no profile");
    assert_eq!(err.kind(), ProfileErrorKind::NotFound);
    assert_eq!(err.message(), "profile not found");
}

#[test]
fn test_end_to_end_profile_lifecycle_with_ledger_reload() {
    let storage = MemoryStorage::new();
    let mut service = PlayerProfileService::new(storage.clone());
    let pid = new_player();
    service.create_profile(&pid, "Lifecycle").expect("create profile");
    let base_vec = BitVec::seed("BASE", DEFAULT_DIM);
    service.set_vector(&pid, base_vec.clone()).expect("set vector");
    let merge_vec = BitVec::seed("MERGE", DEFAULT_DIM);
    service.merge_vector(&pid, &merge_vec).expect("merge vector");
    let ach = AchievementDefinition::new("dev", "game", "ach1", 1, "First", "Earned");
    service.award_achievement(&pid, &ach).expect("award achievement");
    service
        .award_entitlement(&pid, &entitlement("ent1", 1, "i1"), 2, None)
        .expect("award entitlement");
    assert_eq!(service.ledger.chain.len(), 6);
    assert!(service.ledger.is_valid_chain());
    drop(service);

    let service = PlayerProfileService::new(storage);
    assert_eq!(service.ledger.chain.len(), 6);
    let profile = service.get_profile(&pid).expect("missing profile");
    let expected_vec = base_vec.xor(&merge_vec);
    assert_eq!(hamming_distance(&profile.profile_vec, &expected_vec), 0);
    let mut has_achievement = false;
    let mut has_entitlement = false;
    for txn in service.ledger.chain.iter().flat_map(|block| &block.transactions) {
        match txn.details {
            TransactionData::Achievement(_) => has_achievement = true,
            TransactionData::Entitlement(_) => has_entitlement = true,
            _ => {}
        }
    }
    assert!(has_achievement);
    assert!(has_entitlement);
}

// ---------------------------------------------------------------------
// Canonical claims.
// ---------------------------------------------------------------------

fn flight_definition() -> AchievementDefinition {
    AchievementDefinition::new(
        "pudding",
        "solo-flight",
        "first-flight",
        1,
        "First Flight",
        "Complete a successful flight",
    )
    .with_policy(
        AchievementVisibility::Private,
        AchievementRepeatability::OncePerPlayer,
        AchievementIssuanceMode::DirectAwardOrClaimReview,
    )
    .with_accomplishment(AchievementAccomplishment {
        summary: "Complete one successful flight".into(),
        event_key: Some("flight_completed".into()),
        threshold: Some(1),
        requires_evidence: false,
    })
}

fn envelope(local_player_id: &str, sequence: u64) -> EabClaimEnvelope {
    let context = OfflineAchievementContext {
        local_player_id: local_player_id.into(),
        save_id: format!("save-{sequence}"),
        installation_id: format!("install-{local_player_id}"),
        session_id: format!("session-{sequence}"),
        client_sequence: sequence,
        game_build: "1.0.0".into(),
    };
    let event = OfflineAchievementEvent {
        event_key: "flight_completed".into(),
        value: 1,
        occurred_at: format!("2026-08-05T12:{sequence:02}:00Z"),
        evidence: Some("local-run-receipt".into()),
    };
    let mut storage = MemoryOfflineAchievementStorage::new();
    let OfflineAwardOutcome::Awarded(record) =
        record_offline_achievement(&mut storage, &flight_definition(), &event, &context)
            .expect("record offline achievement")
    else {
        panic!("expected offline award");
    };
    EabClaimEnvelope::from_offline_record(&record).expect("canonical envelope")
}

fn service_and_player(storage: MemoryStorage) -> (String, PlayerProfileService<MemoryStorage>) {
    let player_id = new_player();
    let mut service = PlayerProfileService::new(storage);
    service.create_profile(&player_id, "Offline Pilot").expect("create profile");
    (player_id, service)
}

#[test]
fn valid_canonical_claim_is_acknowledged_awarded_and_idempotent() {
    let (player_id, mut service) = service_and_player(MemoryStorage::new());
    let envelope = envelope("slot-1", 1);
    let first = service
        .acknowledge_canonical_claim(&player_id, envelope.clone(), Some(&flight_definition()))
        .expect("acknowledge claim");
    let retry = service
        .acknowledge_canonical_claim(&player_id, envelope.clone(), Some(&flight_definition()))
        .expect("retry claim");
    assert_eq!(first.disposition, EabClaimDisposition::Acknowledged);
    assert_eq!(first.code, EabClaimDecisionCode::Acknowledged);
    assert!(first.award.is_some());
    assert_eq!(retry, first);
    assert_eq!(service.get_reward_state(&player_id).expect("reward state").achievements.len(), 1);
    assert_eq!(
        service
            .get_claim_acknowledgement(&player_id, envelope.claim_id())
            .expect("stored acknowledgement"),
        &first
    );
}

#[test]
fn acknowledgement_and_award_survive_restart_without_duplicate_reward() {
    let storage = MemoryStorage::new();
    let (player_id, mut service) = service_and_player(storage.clone());
    let envelope = envelope("slot-1", 2);
    let first = service
        .acknowledge_canonical_claim(&player_id, envelope.clone(), Some(&flight_definition()))
        .expect("acknowledge claim");
    drop(service);

    let mut restarted = PlayerProfileService::new(storage);
    let retry = restarted
        .acknowledge_canonical_claim(&player_id, envelope, Some(&flight_definition()))
        .expect("retry after restart");
    assert_eq!(retry, first);
    assert_eq!(restarted.get_reward_state(&player_id).expect("reward state").achievements.len(), 1);
}

#[test]
fn separate_offline_occurrences_do_not_duplicate_once_per_player_award() {
    let (player_id, mut service) = service_and_player(MemoryStorage::new());
    let first = service
        .acknowledge_canonical_claim(&player_id, envelope("slot-a", 3), Some(&flight_definition()))
        .expect("first claim");
    let second = service
        .acknowledge_canonical_claim(&player_id, envelope("slot-b", 4), Some(&flight_definition()))
        .expect("second claim");
    assert_eq!(first.code, EabClaimDecisionCode::Acknowledged);
    assert_eq!(second.disposition, EabClaimDisposition::Acknowledged);
    assert_eq!(second.code, EabClaimDecisionCode::AlreadyAcknowledged);
    assert_eq!(second.award, first.award);
    assert_eq!(service.get_reward_state(&player_id).expect("reward state").achievements.len(), 1);
}

#[test]
fn authority_returns_structured_definition_conflicts_without_awarding() {
    let (player_id, mut service) = service_and_player(MemoryStorage::new());
    let missing = service
        .acknowledge_canonical_claim(&player_id, envelope("slot-a", 5), None)
        .expect("missing definition decision");
    assert_eq!(missing.disposition, EabClaimDisposition::Conflict);
    assert_eq!(missing.code, EabClaimDecisionCode::DefinitionNotFound);

    let mut changed_definition = flight_definition();
    changed_definition.accomplishment.summary = "Authoritative definition changed".into();
    let digest_mismatch = service
        .acknowledge_canonical_claim(&player_id, envelope("slot-b", 6), Some(&changed_definition))
        .expect("digest mismatch decision");
    assert_eq!(digest_mismatch.disposition, EabClaimDisposition::Conflict);
    assert_eq!(digest_mismatch.code, EabClaimDecisionCode::DefinitionDigestMismatch);
    assert!(service.get_reward_state(&player_id).expect("reward state").achievements.is_empty());
}

#[test]
fn authority_rejects_tampered_envelope_even_if_client_bypasses_sdk_validation() {
    let (player_id, mut service) = service_and_player(MemoryStorage::new());
    let mut tampered = envelope("slot-a", 8);
    tampered.record.event_value = 99;
    let decision = service
        .acknowledge_canonical_claim(&player_id, tampered, Some(&flight_definition()))
        .expect("tampered envelope decision");
    assert_eq!(decision.disposition, EabClaimDisposition::Rejected);
    assert_eq!(decision.code, EabClaimDecisionCode::InvalidEnvelope);
    assert!(decision.award.is_none());
    assert!(service.get_reward_state(&player_id).expect("reward state").achievements.is_empty());
}

#[test]
fn reusing_claim_id_with_different_payload_returns_conflict() {
    let (player_id, mut service) = service_and_player(MemoryStorage::new());
    let first_envelope = envelope("slot-a", 7);
    service
        .acknowledge_canonical_claim(&player_id, first_envelope.clone(), Some(&flight_definition()))
        .expect("first claim");
    let mut conflicting = first_envelope;
    conflicting.schema_version += 1;
    let decision = service
        .acknowledge_canonical_claim(&player_id, conflicting, Some(&flight_definition()))
        .expect("conflicting claim");
    assert_eq!(decision.disposition, EabClaimDisposition::Conflict);
    assert_eq!(decision.code, EabClaimDecisionCode::ClaimIdPayloadMismatch);
    assert_eq!(service.get_reward_state(&player_id).expect("reward state").achievements.len(), 1);
}

#[test]
fn non_uuid_player_awards_are_kept_in_memory_but_not_persisted() {
    let storage = MemoryStorage::new();
    let mut service = PlayerProfileService::new(storage.clone());
    service.create_profile("local-player", "Local").expect("create profile");
    let ach = AchievementDefinition::new("dev", "game", "ach1", 1, "First", "Earned");
    let err = service.award_achievement("local-player", &ach).expect_err("cannot persist");
    assert_eq!(err.kind(), ProfileErrorKind::Other);
    assert_eq!(err.message(), "failed to persist achievement award");
    assert_eq!(service.get_reward_state("local-player").unwrap().achievements.len(), 1);
    assert_eq!(service.ledger.chain.len(), 3);
    assert!(storage.shelves.borrow().blocks.is_empty());
    let claim_err = service
        .submit_achievement_claim("local-player", claim_input("c", "s", 1, "t", None))
        .expect_err("claims cannot be saved");
    assert_eq!(claim_err.kind(), ProfileErrorKind::InvalidInput);
    assert_eq!(claim_err.message(), "invalid player id");
}

#[test]
fn reviewing_unknown_claims_and_rejections_follow_the_rules() {
    let mut service = PlayerProfileService::new(MemoryStorage::new());
    let pid = new_player();
    service.create_profile(&pid, "Rules").expect("create profile");
    let err = service
        .review_achievement_claim(&pid, "missing", "dev", AchievementClaimReviewAction::Reject, None, None)
        .expect_err("no such claim");
    assert_eq!(err.kind(), ProfileErrorKind::NotFound);
    assert_eq!(err.message(), "claim not found");

    service
        .submit_achievement_claim(&pid, claim_input("c1", "s", 1, "t", None))
        .expect("submit");
    let err = service
        .review_achievement_claim(&pid, "c1", "dev", AchievementClaimReviewAction::Promote, None, None)
        .expect_err("no definition");
    assert_eq!(err.message(), "achievement definition not found");
    let (rejected, award) = service
        .review_achievement_claim(&pid, "c1", "dev", AchievementClaimReviewAction::Reject, Some("no".into()), None)
        .expect("reject");
    assert_eq!(rejected.status, AchievementClaimStatus::Rejected);
    assert!(award.is_none());
    let definition = AchievementDefinition::new("dev", "game", "ach-claim", 1, "Claimed", "ok");
    let err = service
        .review_achievement_claim(&pid, "c1", "dev", AchievementClaimReviewAction::Promote, None, Some(&definition))
        .expect_err("rejected cannot be promoted");
    assert_eq!(err.kind(), ProfileErrorKind::InvalidInput);
    assert_eq!(err.message(), "rejected claim cannot be promoted");
}

fn stored_claim(claim_id: &str, sequence: u64) -> AchievementClaim {
    AchievementClaim {
        developer: "dev".into(),
        game: "game".into(),
        achievement_id: "ach".into(),
        version: 1,
        claim_id: claim_id.into(),
        session_id: "session".into(),
        client_sequence: sequence,
        claimed_at: "2026-03-22T09:00:00Z".into(),
        evidence: None,
        submitted_at: "2026-03-22T09:00:01Z".into(),
        status: AchievementClaimStatus::Pending,
        reviewed_at: None,
        reviewer: None,
        review_note: None,
        awarded_transaction_id: None,
        awarded_block_hash: None,
        canonical_envelope: None,
        acknowledgement: None,
    }
}

#[test]
fn stored_claims_are_ordered_by_sequence_then_claim_id() {
    let ordered = order_achievement_claims(vec![
        stored_claim("b", 2),
        stored_claim("z", 1),
        stored_claim("a", 2),
        stored_claim("c", 1),
    ]);
    let keys: Vec<(u64, &str)> = ordered.iter().map(|c| (c.client_sequence, c.claim_id.as_str())).collect();
    assert_eq!(keys, vec![(1, "c"), (1, "z"), (2, "a"), (2, "b")]);
}
