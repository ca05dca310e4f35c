use eab::achievement::{
    AchievementAccomplishment, AchievementDefinition, AchievementIssuanceMode,
    AchievementRepeatability, AchievementVisibility,
};
use eab::hd::BitVec;
use eab::registry::{
    AchievementRegistry, ConceptRegistry, EntitlementDefinition, EntitlementRegistry,
};

#[test]
fn entitlement_registry_test_insert_and_get() {
    let mut reg = EntitlementRegistry::default();
    let def = EntitlementDefinition {
        developer: "dev".into(),
        game: "game".into(),
        entitlement_id: "ent1".into(),
        version: 1,
        item_type: "type".into(),
        item_id: "item".into(),
        description: "desc".into(),
    };
    reg.insert(def.clone());
    assert!(reg.get("dev", "game", "ent1", 1).is_some());
    assert_eq!(reg.get("dev", "game", "ent1", 1).unwrap().item_id, "item");
}

#[test]
fn achievement_registry_tests_test_insert_and_get() {
    let mut reg = AchievementRegistry::default();
    let def = AchievementDefinition::new("dev", "game", "ach1", 1, "First", "Desc")
        .with_category("progression")
        .with_policy(
            AchievementVisibility::PublicProof,
            AchievementRepeatability::OncePerPlayer,
            AchievementIssuanceMode::DirectAwardOrClaimReview,
        )
        .with_accomplishment(AchievementAccomplishment {
            summary: "Do the first thing".into(),
            event_key: Some("first_thing".into()),
            threshold: Some(1),
            requires_evidence: false,
        });
    reg.insert(def.clone());
    assert!(reg.get("dev", "game", "ach1", 1).is_some());
    assert_eq!(
        reg.get("dev", "game", "ach1", 1).expect("ach").name(),
        "First"
    );
}

#[test]
fn concept_registry_tests_test_insert_and_get() {
    let mut reg = ConceptRegistry::default();
    let vec = BitVec::seed("game:concept", 128);
    reg.insert("game:concept".to_string(), vec.clone());
    assert!(reg.get("game:concept").is_some());
    assert_eq!(reg.get("game:concept").expect("concept").lanes, vec.lanes);
}

#[test]
fn registry_keys_include_the_version_and_later_inserts_replace() {
    let mut reg = AchievementRegistry::default();
    reg.insert(AchievementDefinition::new("dev", "game", "ach1", 12, "Twelve", "Desc"));
    assert!(reg.get("dev", "game", "ach1", 1).is_none());
    assert_eq!(reg.get("dev", "game", "ach1", 12).unwrap().name(), "Twelve");
    reg.insert(AchievementDefinition::new("dev", "game", "ach1", 12, "Again", "Desc"));
    assert_eq!(reg.get("dev", "game", "ach1", 12).unwrap().name(), "Again");
    assert_eq!(reg.entries().len(), 1);
    assert_eq!(reg.entries()[0].0, "dev:game:ach1:v12");
}
