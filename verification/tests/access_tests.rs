use eab::access::{
    authorized_token, builtin_developer_tokens, default_developer_scopes,
    developer_authorized_for, normalize_scopes, parse_developer_tokens_env, player_token,
    SCOPE_AWARD_ACHIEVEMENTS, SCOPE_GRANT_ENTITLEMENTS, SCOPE_MANAGE_CONCEPTS,
    SCOPE_REGISTER_DEFINITIONS,
};
use eab::anchor::{
    block_metadata_hash, enqueue_anchor, player_owner_hash, qcoin_target_spec, settle_anchor,
    SubmissionOutcome, DEFAULT_QCOIN_NODE_PORT,
};
use eab::ledger::{block_json_bytes, Block};
use eab::identity::{
    equal_ignoring_ascii_case, parse_provider_tokens, supported_providers, IdentityDirectory,
    IdentityError,
};

#[test]
fn derives_udp_target_from_http_url() {
    let target = qcoin_target_spec("http://127.0.0.1:9700").expect("derive target");
    assert_eq!(target, "127.0.0.1:9700");
}

#[test]
fn target_adds_the_default_port_and_drops_the_path() {
    assert_eq!(DEFAULT_QCOIN_NODE_PORT, 9700);
    assert_eq!(qcoin_target_spec("https://node.example/anchor").unwrap(), "node.example:9700");
    assert_eq!(qcoin_target_spec(" node.example ").unwrap(), "node.example:9700");
    assert_eq!(qcoin_target_spec("udp://[::1]").unwrap(), "[::1]");
    assert_eq!(qcoin_target_spec("udp://a://b:1").unwrap(), "a:");
}

#[test]
fn target_without_authority_is_refused() {
    assert_eq!(
        qcoin_target_spec("http:///path").unwrap_err(),
        "missing authority in qcoin URL http:///path"
    );
    assert!(qcoin_target_spec("").is_err());
}

#[test]
fn builtin_tokens_grant_every_scope() {
    let tokens = builtin_developer_tokens();
    assert_eq!(tokens.len(), 2);
    assert_eq!((tokens[0].developer.as_str(), tokens[0].token.as_str()), ("dev1", "token1"));
    assert_eq!((tokens[1].developer.as_str(), tokens[1].token.as_str()), ("dev2", "token2"));
    for scope in [
        SCOPE_MANAGE_CONCEPTS,
        SCOPE_REGISTER_DEFINITIONS,
        SCOPE_AWARD_ACHIEVEMENTS,
        SCOPE_GRANT_ENTITLEMENTS,
    ] {
        assert!(developer_authorized_for(Some("Bearer token1"), &tokens, "dev1", scope));
        assert!(!developer_authorized_for(Some("Bearer token1"), &tokens, "dev2", scope));
    }
    assert_eq!(default_developer_scopes().len(), 4);
}

#[test]
fn env_tokens_parse_scopes_and_default_to_all() {
    let tokens = parse_developer_tokens_env("dev1:abc:award:achievements+ , dev2 : xyz ,broken");
    assert_eq!(tokens.len(), 2);
    assert_eq!(tokens[0].developer, "dev1");
    assert_eq!(tokens[0].token, "abc");
    assert_eq!(tokens[0].scopes, vec!["award:achievements".to_string()]);
    assert_eq!(tokens[1].developer, "dev2");
    assert_eq!(tokens[1].token, "xyz");
    assert_eq!(tokens[1].scopes.len(), 4);
}

#[test]
fn only_an_empty_scope_list_falls_back_to_every_scope() {
    assert_eq!(normalize_scopes(Vec::new()).len(), 4);
    assert_eq!(normalize_scopes(vec![" ".to_string(), "".to_string()]).len(), 0);
    assert_eq!(
        normalize_scopes(vec![" grant:entitlements ".to_string(), " ".to_string()]),
        vec!["grant:entitlements".to_string()]
    );
}

#[test]
fn bearer_header_selects_the_presented_token() {
    let tokens = builtin_developer_tokens();
    assert_eq!(authorized_token(Some("Bearer token2"), &tokens).unwrap().developer, "dev2");
    assert!(authorized_token(Some("token2"), &tokens).is_none());
    assert!(authorized_token(None, &tokens).is_none());
    assert_eq!(player_token(Some("Bearer abc")), Some("abc".to_string()));
    assert_eq!(player_token(Some("Basic abc")), None);
    assert_eq!(player_token(None), None);
}

#[test]
fn provider_names_compare_without_ascii_case() {
    assert!(equal_ignoring_ascii_case("Steam", "sTEAM"));
    assert!(!equal_ignoring_ascii_case("steam", "steams"));
    let providers = supported_providers(None);
    assert!(!providers.is_empty());
    assert_eq!(supported_providers(Some(" a , ,b")), vec!["a".to_string(), "b".to_string()]);
}

#[test]
fn exchange_binds_a_subject_once_and_opens_sessions() {
    let tokens = parse_provider_tokens("steam:tok-1:alice,steam:tok-2:alice,steam:tok-3:bob");
    assert_eq!(tokens.len(), 3);
    let mut directory = IdentityDirectory::new(vec!["steam".to_string()], tokens, Vec::new());

    // The provider is accepted whatever its case; its tokens are looked up as written.
    assert!(matches!(directory.bind_player("STEAM", "tok-1"), Err(IdentityError::InvalidToken)));
    let (first, first_new) = directory.bind_player("steam", "tok-1").expect("bind alice");
    assert!(first_new);
    let (again, again_new) = directory.bind_player("steam", "tok-2").expect("bind alice again");
    assert_eq!(again, first);
    assert!(!again_new);
    let (bob, bob_new) = directory.bind_player("steam", "tok-3").expect("bind bob");
    assert!(bob_new);
    assert_ne!(bob, first);
    assert_eq!(directory.identities().len(), 2);

    assert!(matches!(directory.bind_player("steam", "unknown"), Err(IdentityError::InvalidToken)));
    assert!(matches!(
        directory.bind_player("epic", "tok-1"),
        Err(IdentityError::UnsupportedProvider)
    ));

    let session = directory.open_session(&first);
    assert_eq!(directory.player_id_from_session(&session), Some(first.clone()));
    assert_eq!(directory.player_id_from_session("no-such-session"), None);
}

#[test]
fn without_configured_tokens_the_token_is_the_subject() {
    let mut directory = IdentityDirectory::new(vec!["steam".to_string()], Vec::new(), Vec::new());
    let (player, is_new) = directory.bind_player("steam", "subject-7").expect("bind");
    assert!(is_new);
    assert_eq!(directory.identities()[0].1, "subject-7");
    assert_eq!(directory.identities()[0].2, player);
}

fn sample_block() -> Block {
    Block {
        block_hash: "h".into(),
        previous_block_hash: "p".into(),
        timestamp: "t".into(),
        app_version: "v".into(),
        nonce: 0,
        transactions: vec![],
    }
}

#[test]
fn anchor_hashes_the_player_uuid_and_the_block_json() {
    let player = uuid::Uuid::new_v4();
    assert_eq!(player_owner_hash(player.as_u128()), *blake3::hash(player.as_bytes()).as_bytes());
    let json = r#"{"block_hash":"h","previous_block_hash":"p","timestamp":"t","app_version":"v","nonce":0,"transactions":[]}"#;
    assert_eq!(block_json_bytes(&sample_block()), json.as_bytes());
    assert_eq!(block_metadata_hash(&sample_block()), *blake3::hash(json.as_bytes()).as_bytes());
}

#[test]
fn outbox_keeps_an_anchor_until_it_is_accepted() {
    let player = uuid::Uuid::new_v4().as_u128();
    let entry = enqueue_anchor(player, sample_block());
    assert_eq!(entry.player_id, player);
    assert_eq!(entry.attempts, 0);
    assert!(entry.last_error.is_none());
    assert_eq!(entry.transaction.owner_script_hash, player_owner_hash(player));

    let refused = settle_anchor(entry, SubmissionOutcome::Refused("stale tip".into())).expect("kept");
    assert_eq!(refused.attempts, 1);
    assert_eq!(refused.last_error.as_deref(), Some("stale tip"));
    let failed = settle_anchor(refused, SubmissionOutcome::Failed("timed out".into())).expect("kept");
    assert_eq!(failed.attempts, 2);
    assert_eq!(failed.last_error.as_deref(), Some("timed out"));
    assert!(settle_anchor(failed, SubmissionOutcome::Accepted).is_none());
}

#[test]
fn developer_token_check_fails_closed_without_tokens() {
    assert!(authorized_token(Some("Bearer token1"), &[]).is_none());
    assert!(authorized_token(None, &[]).is_none());
}
