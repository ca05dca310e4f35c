use eab::access::{
    builtin_developer_tokens, player_token, DeveloperTokenAuth, SCOPE_AWARD_ACHIEVEMENTS,
    SCOPE_REGISTER_DEFINITIONS,
};
use eab::achievement::AchievementDefinition;
use eab::api::{
    add_achievement, add_concept, add_concept_to_profile, add_entitlement,
    award_achievement_to_profile, award_entitlement_to_profile, create_profile,
    exchange_identity_reply, get_concept, get_profile, get_rewards, set_dimensions,
    submit_achievement_claim_to_profile, ApiReply, get_claim_acknowledgement_of_profile,
    list_achievement_claims_of_profile, review_achievement_claim_of_profile,
};
use eab::profile::{AchievementClaimReviewAction, AchievementClaimStatus};
use eab::hd::BitVec;
use eab::identity::{ExchangeResult, IdentityError};
use eab::registry::ConceptRegistry;
use eab::identity::IdentityDirectory;
use eab::ledger::Block;
use eab::profile::{
    AchievementClaim, AchievementClaimInput, LedgerStorage, PlayerProfileService, ProfileError,
};
use eab::registry::{AchievementRegistry, EntitlementDefinition, EntitlementRegistry};
use std::cell::RefCell;
use std::collections::HashMap;
use std::rc::Rc;

#[derive(Default)]
struct Shelves {
    blocks: HashMap<u128, Vec<Block>>,
    claims: HashMap<u128, Vec<AchievementClaim>>,
    order: Vec<u128>,
}

#[derive(Clone, Default)]
struct MemoryStorage {
    shelves: Rc<RefCell<Shelves>>,
}

impl LedgerStorage for MemoryStorage {
    fn append_block(&self, player_id: u128, block: &Block) -> Result<(), ProfileError> {
        let mut shelves = self.shelves.borrow_mut();
        if !shelves.order.contains(&player_id) {
            shelves.order.push(player_id);
        }
        shelves.blocks.entry(player_id).or_default().push(block.clone());
        Ok(())
    }

    fn load_blocks(&self, player_id: u128) -> Result<Vec<Block>, ProfileError> {
        Ok(self.shelves.borrow().blocks.get(&player_id).cloned().unwrap_or_default())
    }

    fn list_player_ids(&self) -> Result<Vec<u128>, ProfileError> {
        Ok(self.shelves.borrow().order.clone())
    }

    fn load_achievement_claims(&self, player_id: u128) -> Result<Vec<AchievementClaim>, ProfileError> {
        Ok(self.shelves.borrow().claims.get(&player_id).cloned().unwrap_or_default())
    }

    fn save_achievement_claims(
        &self,
        player_id: u128,
        claims: &[AchievementClaim],
    ) -> Result<(), ProfileError> {
        self.shelves.borrow_mut().claims.insert(player_id, claims.to_vec());
        Ok(())
    }
}

fn test_service() -> PlayerProfileService<MemoryStorage> {
    PlayerProfileService::new(MemoryStorage::default())
}

fn new_player() -> String {
    uuid::Uuid::new_v4().to_string()
}

fn seed_profile(service: &mut PlayerProfileService<MemoryStorage>, player_id: &str, name: &str) {
    service.create_profile(player_id, name).expect("create profile");
}

fn achievement_registry() -> AchievementRegistry {
    let mut reg = AchievementRegistry::new();
    reg.insert(AchievementDefinition::new(
        "dev1",
        "game",
        "first-win",
        1,
        "First Win",
        "Win your first match",
    ));
    reg
}

fn entitlement_registry() -> EntitlementRegistry {
    let mut reg = EntitlementRegistry::new();
    reg.insert(EntitlementDefinition {
        developer: "dev1".into(),
        game: "game".into(),
        entitlement_id: "starter-pack".into(),
        version: 1,
        item_type: "item".into(),
        item_id: "starter-pack".into(),
        description: "Starter pack".into(),
    });
    reg
}

fn scoped_token(developer: &str, token: &str, scopes: &[&str]) -> DeveloperTokenAuth {
    DeveloperTokenAuth {
        developer: developer.to_string(),
        token: token.to_string(),
        scopes: scopes.iter().map(|scope| scope.to_string()).collect(),
    }
}

/// The player of the session that the authorization header carries.
fn session_player(sessions: &IdentityDirectory, header: &str) -> Option<String> {
    player_token(Some(header)).and_then(|token| sessions.player_id_from_session(&token))
}

fn sessions() -> IdentityDirectory {
    IdentityDirectory::new(Vec::new(), Vec::new(), Vec::new())
}

fn award_first_win(
    service: &mut PlayerProfileService<MemoryStorage>,
    header: &str,
    tokens: &[DeveloperTokenAuth],
    player_id: &str,
) -> ApiReply<eab::profile::AwardRecord> {
    award_achievement_to_profile(
        service,
        &achievement_registry(),
        Some(header),
        tokens,
        player_id,
        "dev1",
        "game",
        "first-win",
        1,
    )
}

fn grant_starter_pack(
    service: &mut PlayerProfileService<MemoryStorage>,
    header: &str,
    tokens: &[DeveloperTokenAuth],
    player_id: &str,
) -> ApiReply<eab::profile::AwardRecord> {
    award_entitlement_to_profile(
        service,
        &entitlement_registry(),
        Some(header),
        tokens,
        player_id,
        "dev1",
        "game",
        "starter-pack",
        1,
        1,
        None,
    )
}

fn claim(claim_id: &str, session: &str, sequence: u64, at: &str, evidence: Option<&str>) -> AchievementClaimInput {
    AchievementClaimInput {
        developer: "dev1".into(),
        game: "game".into(),
        achievement_id: "first-win".into(),
        version: 1,
        claim_id: claim_id.into(),
        session_id: session.into(),
        client_sequence: sequence,
        claimed_at: at.into(),
        evidence: evidence.map(|e| e.to_string()),
    }
}

#[test]
fn player_session_cannot_self_award_achievement() {
    let mut service = test_service();
    let mut directory = sessions();
    let player_id = new_player();
    let session_token = directory.open_session(&player_id);
    seed_profile(&mut service, &player_id, "Player One");
    let reply = award_first_win(
        &mut service,
        &format!("Bearer {}", session_token),
        &builtin_developer_tokens(),
        &player_id,
    );
    assert!(matches!(reply, ApiReply::Unauthorized(_)));
}

#[test]
fn player_session_cannot_self_grant_entitlement() {
    let mut service = test_service();
    let mut directory = sessions();
    let player_id = new_player();
    let session_token = directory.open_session(&player_id);
    seed_profile(&mut service, &player_id, "Player One");
    let reply = grant_starter_pack(
        &mut service,
        &format!("Bearer {}", session_token),
        &builtin_developer_tokens(),
        &player_id,
    );
    assert!(matches!(reply, ApiReply::Unauthorized(_)));
}

#[test]
fn trusted_service_token_can_award_achievement() {
    let mut service = test_service();
    let player_id = new_player();
    seed_profile(&mut service, &player_id, "Player One");
    let reply = award_first_win(&mut service, "Bearer token1", &builtin_developer_tokens(), &player_id);
    match reply {
        ApiReply::Success(receipt) => {
            assert_eq!(receipt.player_id, player_id);
            assert_eq!(receipt.transaction_type, "achievement");
        }
        _ => panic!("expected the award receipt"),
    }
}

#[test]
fn mismatched_developer_token_cannot_award_achievement() {
    let mut service = test_service();
    let player_id = new_player();
    seed_profile(&mut service, &player_id, "Player One");
    let reply = award_first_win(&mut service, "Bearer token2", &builtin_developer_tokens(), &player_id);
    assert!(matches!(reply, ApiReply::Unauthorized(_)));
}

#[test]
fn trusted_service_token_can_grant_entitlement() {
    let mut service = test_service();
    let player_id = new_player();
    seed_profile(&mut service, &player_id, "Player One");
    let reply = grant_starter_pack(&mut service, "Bearer token1", &builtin_developer_tokens(), &player_id);
    match reply {
        ApiReply::Success(receipt) => {
            assert_eq!(receipt.player_id, player_id);
            assert_eq!(receipt.transaction_type, "entitlement");
        }
        _ => panic!("expected the grant receipt"),
    }
}

#[test]
fn player_session_can_submit_achievement_claim_for_own_profile() {
    let mut service = test_service();
    let mut directory = sessions();
    let player_id = new_player();
    let session_token = directory.open_session(&player_id);
    seed_profile(&mut service, &player_id, "Player One");
    let caller = session_player(&directory, &format!("Bearer {}", session_token));
    let reply = submit_achievement_claim_to_profile(
        &mut service,
        caller,
        &player_id,
        claim("claim-1", "offline-session-1", 3, "2026-03-22T09:00:00Z", Some("won_match_offline")),
    );
    assert!(matches!(reply, ApiReply::Accepted(_)));
    let claims = service.get_achievement_claims(&player_id).expect("missing claims");
    assert_eq!(claims.len(), 1);
    let rewards = service.get_reward_state(&player_id).expect("missing rewards");
    assert!(rewards.achievements.is_empty());
}

#[test]
fn player_session_cannot_submit_achievement_claim_for_other_profile() {
    let mut service = test_service();
    let mut directory = sessions();
    let player_id = new_player();
    let other_player_id = new_player();
    let session_token = directory.open_session(&player_id);
    seed_profile(&mut service, &player_id, "Player One");
    seed_profile(&mut service, &other_player_id, "Player Two");
    let caller = session_player(&directory, &format!("Bearer {}", session_token));
    let reply = submit_achievement_claim_to_profile(
        &mut service,
        caller,
        &other_player_id,
        claim("claim-2", "offline-session-1", 4, "2026-03-22T09:01:00Z", None),
    );
    assert!(matches!(reply, ApiReply::Unauthorized(_)));
}

#[test]
fn duplicate_achievement_claim_id_is_idempotent() {
    let mut service = test_service();
    let mut directory = sessions();
    let player_id = new_player();
    let session_token = directory.open_session(&player_id);
    seed_profile(&mut service, &player_id, "Player One");
    let header = format!("Bearer {}", session_token);
    let make_request = || claim("claim-dup", "offline-session-2", 5, "2026-03-22T09:02:00Z", Some("duplicate"));
    let first = submit_achievement_claim_to_profile(
        &mut service,
        session_player(&directory, &header),
        &player_id,
        make_request(),
    );
    let second = submit_achievement_claim_to_profile(
        &mut service,
        session_player(&directory, &header),
        &player_id,
        make_request(),
    );
    assert!(matches!(first, ApiReply::Accepted(_)));
    assert!(matches!(second, ApiReply::Accepted(_)));
    let claims = service.get_achievement_claims(&player_id).expect("missing claims");
    assert_eq!(claims.len(), 1);
    let rewards = service.get_reward_state(&player_id).expect("missing rewards");
    assert!(rewards.achievements.is_empty());
}

#[test]
fn token_without_award_scope_cannot_award_achievement() {
    let tokens = vec![scoped_token("dev1", "defs-only", &[SCOPE_REGISTER_DEFINITIONS])];
    let mut service = test_service();
    let player_id = new_player();
    seed_profile(&mut service, &player_id, "Player One");
    let reply = award_first_win(&mut service, "Bearer defs-only", &tokens, &player_id);
    assert!(matches!(reply, ApiReply::Unauthorized(_)));
}

#[test]
fn token_without_grant_scope_cannot_grant_entitlement() {
    let tokens = vec![scoped_token("dev1", "award-only", &[SCOPE_AWARD_ACHIEVEMENTS])];
    let mut service = test_service();
    let player_id = new_player();
    seed_profile(&mut service, &player_id, "Player One");
    let reply = grant_starter_pack(&mut service, "Bearer award-only", &tokens, &player_id);
    assert!(matches!(reply, ApiReply::Unauthorized(_)));
}

#[test]
fn unregistered_achievement_is_not_found_and_awards_nothing() {
    let mut service = test_service();
    let player_id = new_player();
    seed_profile(&mut service, &player_id, "Player One");
    let reply = award_achievement_to_profile(
        &mut service,
        &achievement_registry(),
        Some("Bearer token1"),
        &builtin_developer_tokens(),
        &player_id,
        "dev1",
        "game",
        "second-win",
        1,
    );
    assert!(matches!(reply, ApiReply::NotFound));
    let rewards = service.get_reward_state(&player_id).expect("missing rewards");
    assert!(rewards.achievements.is_empty());
}

#[test]
fn award_to_missing_profile_is_not_found() {
    let mut service = test_service();
    let reply = award_first_win(&mut service, "Bearer token1", &builtin_developer_tokens(), &new_player());
    assert!(matches!(reply, ApiReply::NotFound));
}

#[test]
fn missing_authorization_header_is_refused() {
    let mut service = test_service();
    let player_id = new_player();
    seed_profile(&mut service, &player_id, "Player One");
    let reply = award_achievement_to_profile(
        &mut service,
        &achievement_registry(),
        None,
        &builtin_developer_tokens(),
        &player_id,
        "dev1",
        "game",
        "first-win",
        1,
    );
    assert!(matches!(reply, ApiReply::Unauthorized(_)));
}

#[test]
fn claim_without_session_is_refused() {
    let mut service = test_service();
    let player_id = new_player();
    seed_profile(&mut service, &player_id, "Player One");
    let reply = submit_achievement_claim_to_profile(
        &mut service,
        None,
        &player_id,
        claim("claim-3", "offline-session-3", 1, "2026-03-22T09:03:00Z", None),
    );
    assert!(matches!(reply, ApiReply::Unauthorized(_)));
    assert_eq!(service.get_achievement_claims(&player_id).map(|c| c.len()).unwrap_or(0), 0);
}

#[test]
fn profiles_answer_only_their_own_session() {
    let mut service = test_service();
    let player_id = new_player();
    match create_profile(&mut service, Some(player_id.clone()), "Player One") {
        ApiReply::Success(profile) => assert_eq!(profile.name, "Player One"),
        _ => panic!("expected the new profile"),
    }
    assert!(matches!(create_profile(&mut service, None, "Nobody"), ApiReply::Unauthorized(_)));
    assert!(matches!(get_profile(&service, Some(player_id.clone()), &player_id), ApiReply::Success(_)));
    assert!(matches!(get_profile(&service, Some(new_player()), &player_id), ApiReply::Unauthorized(_)));
    assert!(matches!(get_rewards(&service, Some(player_id.clone()), &player_id), ApiReply::Success(_)));
    let stranger = new_player();
    assert!(matches!(get_profile(&service, Some(stranger.clone()), &stranger), ApiReply::NotFound));
}

#[test]
fn dimensions_replace_the_profile_vector() {
    let mut service = test_service();
    let player_id = new_player();
    seed_profile(&mut service, &player_id, "Player One");
    let reply = set_dimensions(&mut service, Some(player_id.clone()), &player_id, 64, vec![5]);
    assert!(matches!(reply, ApiReply::Empty));
    let profile = service.get_profile(&player_id).expect("profile");
    assert_eq!(profile.profile_vec.dim, 64);
    assert_eq!(profile.profile_vec.lanes, vec![5]);
    let other = new_player();
    assert!(matches!(set_dimensions(&mut service, Some(other.clone()), &other, 64, vec![1]), ApiReply::NotFound));
}

#[test]
fn concepts_need_the_concept_scope_and_are_seeded_once() {
    let tokens = builtin_developer_tokens();
    let mut registry = ConceptRegistry::new();
    let (first, created) = add_concept(&mut registry, Some("Bearer token1"), &tokens, "dev1", "game", "speed", Some(128));
    assert!(created);
    let first = match first {
        ApiReply::Success(v) => v,
        _ => panic!("expected the concept vector"),
    };
    assert_eq!(first.lanes, BitVec::seed("dev1:game:speed", 128).lanes);
    let (again, created_again) =
        add_concept(&mut registry, Some("Bearer token1"), &tokens, "dev1", "game", "speed", Some(64));
    assert!(!created_again);
    match again {
        ApiReply::Success(v) => assert_eq!((v.dim, v.lanes), (first.dim, first.lanes.clone())),
        _ => panic!("expected the stored vector"),
    }
    let (refused, _) = add_concept(&mut registry, Some("Bearer token2"), &tokens, "dev1", "game", "other", None);
    assert!(matches!(refused, ApiReply::Unauthorized(_)));
    assert!(matches!(get_concept(&registry, Some("Bearer token1"), &tokens, "dev1", "game", "speed"), ApiReply::Success(_)));
    assert!(matches!(get_concept(&registry, Some("Bearer token1"), &tokens, "dev1", "game", "none"), ApiReply::NotFound));
}

#[test]
fn concept_merges_into_the_profile_vector() {
    let tokens = builtin_developer_tokens();
    let mut service = test_service();
    let player_id = new_player();
    seed_profile(&mut service, &player_id, "Player One");
    let mut registry = ConceptRegistry::new();
    let dim = service.get_profile(&player_id).unwrap().profile_vec.dim;
    let (concept, _) = add_concept(&mut registry, Some("Bearer token1"), &tokens, "dev1", "game", "speed", Some(dim));
    let concept = match concept {
        ApiReply::Success(v) => v,
        _ => panic!("expected the concept vector"),
    };
    let before = service.get_profile(&player_id).unwrap().profile_vec.lanes.clone();
    let reply = add_concept_to_profile(&mut service, &registry, Some(player_id.clone()), &player_id, "dev1", "game", "speed");
    assert!(matches!(reply, ApiReply::Empty));
    let after = &service.get_profile(&player_id).unwrap().profile_vec.lanes;
    let expected: Vec<u64> = before.iter().zip(concept.lanes.iter()).map(|(a, b)| a ^ b).collect();
    assert_eq!(after, &expected);
    assert!(matches!(
        add_concept_to_profile(&mut service, &registry, Some(player_id.clone()), &player_id, "dev1", "game", "none"),
        ApiReply::NotFound
    ));
}

#[test]
fn definitions_need_the_registration_scope() {
    let tokens = vec![scoped_token("dev1", "defs", &[SCOPE_REGISTER_DEFINITIONS])];
    let mut achievements = AchievementRegistry::new();
    let reply = add_achievement(&mut achievements, Some("Bearer defs"), &tokens, "dev1", "game", "win", 2, "Win", "Win once");
    assert!(matches!(reply, ApiReply::Empty));
    let def = achievements.get("dev1", "game", "win", 2).expect("registered");
    assert_eq!(def.name(), "Win");
    let refused = add_achievement(&mut achievements, Some("Bearer defs"), &tokens, "dev2", "game", "win", 1, "Win", "Win");
    assert!(matches!(refused, ApiReply::Unauthorized(_)));

    let mut entitlements = EntitlementRegistry::new();
    let def = EntitlementDefinition {
        developer: "dev1".into(),
        game: "game".into(),
        entitlement_id: "pack".into(),
        version: 1,
        item_type: "item".into(),
        item_id: "pack".into(),
        description: "Pack".into(),
    };
    assert!(matches!(add_entitlement(&mut entitlements, Some("Bearer defs"), &tokens, def), ApiReply::Empty));
    assert!(entitlements.get("dev1", "game", "pack", 1).is_some());
}

#[test]
fn identity_exchange_outcomes_map_to_replies() {
    let ok = exchange_identity_reply(Ok(ExchangeResult {
        access_token: "session".into(),
        player_id: "player".into(),
        is_new_player: true,
    }));
    match ok {
        ApiReply::Success(r) => assert_eq!((r.access_token.as_str(), r.player_id.as_str(), r.is_new_player), ("session", "player", true)),
        _ => panic!("expected success"),
    }
    match exchange_identity_reply(Err(IdentityError::UnsupportedProvider)) {
        ApiReply::BadRequest(m) => assert_eq!(m, "unsupported provider"),
        _ => panic!("expected a bad request"),
    }
    match exchange_identity_reply(Err(IdentityError::InvalidToken)) {
        ApiReply::Unauthorized(m) => assert_eq!(m, "invalid token"),
        _ => panic!("expected unauthorized"),
    }
    assert!(matches!(exchange_identity_reply(Err(IdentityError::StorageError)), ApiReply::InternalServerError));
}

#[test]
fn claims_are_listed_for_their_player_and_reviewed_by_a_trusted_service() {
    let mut service = test_service();
    let player_id = new_player();
    seed_profile(&mut service, &player_id, "Player One");
    let accepted = submit_achievement_claim_to_profile(
        &mut service,
        Some(player_id.clone()),
        &player_id,
        claim("claim-1", "session-1", 1, "2026-01-01T00:00:00Z", None),
    );
    assert!(matches!(accepted, ApiReply::Accepted(_)));

    assert!(matches!(
        list_achievement_claims_of_profile(&service, Some(new_player()), &player_id),
        ApiReply::Unauthorized(_)
    ));
    match list_achievement_claims_of_profile(&service, Some(player_id.clone()), &player_id) {
        ApiReply::Success(claims) => {
            assert_eq!(claims.len(), 1);
            assert_eq!(claims[0].claim_id, "claim-1");
        }
        _ => panic!("expected the claims"),
    }

    let registry = achievement_registry();
    let refused = review_achievement_claim_of_profile(
        &mut service,
        &registry,
        Some("Bearer token2"),
        &builtin_developer_tokens(),
        &player_id,
        "claim-1",
        AchievementClaimReviewAction::Promote,
        None,
    );
    assert!(matches!(refused, ApiReply::Unauthorized(_)));
    assert!(service.get_reward_state(&player_id).unwrap().achievements.is_empty());

    let promoted = review_achievement_claim_of_profile(
        &mut service,
        &registry,
        Some("Bearer token1"),
        &builtin_developer_tokens(),
        &player_id,
        "claim-1",
        AchievementClaimReviewAction::Promote,
        Some("looks good".into()),
    );
    match promoted {
        ApiReply::Success(c) => {
            assert_eq!(c.status, AchievementClaimStatus::Promoted);
            assert_eq!(c.reviewer.as_deref(), Some("dev1"));
            assert!(c.awarded_transaction_id.is_some());
        }
        _ => panic!("expected the promoted claim"),
    }
    assert_eq!(service.get_reward_state(&player_id).unwrap().achievements.len(), 1);

    let missing = review_achievement_claim_of_profile(
        &mut service,
        &registry,
        Some("Bearer token1"),
        &builtin_developer_tokens(),
        &player_id,
        "claim-2",
        AchievementClaimReviewAction::Reject,
        None,
    );
    assert!(matches!(missing, ApiReply::NotFound));
    let rejected = review_achievement_claim_of_profile(
        &mut service,
        &registry,
        Some("Bearer token1"),
        &builtin_developer_tokens(),
        &player_id,
        "claim-1",
        AchievementClaimReviewAction::Reject,
        None,
    );
    assert!(matches!(rejected, ApiReply::BadRequest(m) if m == "promoted claim cannot be rejected"));

    assert!(matches!(
        get_claim_acknowledgement_of_profile(&service, Some(player_id.clone()), &player_id, "claim-1"),
        ApiReply::NotFound
    ));
}
