//! What each HTTP endpoint decides once its inputs are in hand: whether the
//! caller may act, what the service is asked, and which status answers.
//! Reading requests, registries on disk and writing responses are the
//! server's.

use vstd::prelude::*;
use crate::access::{
    developer_authorized_for, opt_str_view, presented_token, scope_set, DeveloperTokenAuth,
    SCOPE_AWARD_ACHIEVEMENTS, SCOPE_GRANT_ENTITLEMENTS, SCOPE_MANAGE_CONCEPTS,
    SCOPE_REGISTER_DEFINITIONS,
};
use crate::achievement::AchievementDefinition;
use crate::hd::{seeded_from, BitVec};
use crate::identity::{ExchangeResult, IdentityError};
use crate::ledger::PlayerProfile;
use crate::claim::{EabClaimAcknowledgement, EabClaimEnvelope};
use crate::secure_claims::acknowledge_with_registry;
use crate::profile::{
    claims_view, AchievementClaimReviewAction, ProfileError, AchievementClaim, AchievementClaimInput, AwardRecord, LedgerStorage, PlayerProfileService,
    PlayerRewardState, ProfileErrorKind, DEFAULT_DIM, entitlements_view, achievements_view, with_vector,
    xor_lanes, claim_index, claims_or_empty, latest_receipt_at, record_of_tx, entitlement_award, reward_or_empty, PlayerRewardStateView,
};
use crate::registry::{registry_key, AchievementRegistry, ConceptRegistry, EntitlementDefinition, EntitlementRegistry};
use crate::text::{copy_string, str_eq};

verus! {

/// How an endpoint answers.
#[derive(Debug)]
pub enum ApiReply<T> {
    Success(T),
    Empty,
    Accepted(T),
    BadRequest(String),
    Unauthorized(String),
    NotFound,
    InternalServerError,
}

/// Whether the reply refuses the caller.
pub open spec fn is_unauthorized<T>(r: ApiReply<T>) -> bool {
    r matches ApiReply::Unauthorized(_)
}

/// The session's player may act on `path_player`'s profile only.
pub open spec fn may_access(session_player: Option<Seq<char>>, path_player: Seq<char>) -> bool {
    session_player == Some(path_player)
}

fn same_player(session_player: &Option<String>, path_player: &str) -> (r: bool)
    ensures
        r == may_access(crate::text::opt_view(*session_player), path_player@),
{
    match session_player {
        Some(p) => str_eq(p.as_str(), path_player),
        None => false,
    }
}

/// `POST /profiles`: creates the session player's profile.
pub fn create_profile<S: LedgerStorage>(
    service: &mut PlayerProfileService<S>,
    session_player: Option<String>,
    name: &str,
) -> (r: ApiReply<PlayerProfile>)
    ensures
        session_player is None ==> is_unauthorized(r) && old(service).unchanged(*final(service)),
        session_player matches Some(p) ==> match r {
            ApiReply::Success(profile) => profile@ == final(service).profiles()[p@],
            ApiReply::InternalServerError => true,
            _ => false,
        },
{
    let player_id = match session_player {
        Some(p) => p,
        None => {
            return ApiReply::Unauthorized(String::new());
        },
    };
    match service.create_profile(player_id.as_str(), name) {
        Ok(profile) => {
            let copy = profile.duplicate();
            ApiReply::Success(copy)
        },
        Err(_) => ApiReply::InternalServerError,
    }
}

/// `GET /profiles/{id}`: the profile, to its own player only.
pub fn get_profile<S: LedgerStorage>(
    service: &PlayerProfileService<S>,
    session_player: Option<String>,
    path_player: &str,
) -> (r: ApiReply<PlayerProfile>)
    ensures
        !may_access(crate::text::opt_view(session_player), path_player@) ==> is_unauthorized(r),
        may_access(crate::text::opt_view(session_player), path_player@) ==> match r {
            ApiReply::Success(p) => service.profiles().contains_key(path_player@) && p@ == service.profiles()[path_player@],
            ApiReply::NotFound => !service.profiles().contains_key(path_player@),
            _ => false,
        },
{
    if !same_player(&session_player, path_player) {
        return ApiReply::Unauthorized(String::new());
    }
    match service.get_profile(path_player) {
        Some(profile) => ApiReply::Success(profile.duplicate()),
        None => ApiReply::NotFound,
    }
}

fn copy_rewards(r: &PlayerRewardState) -> (c: PlayerRewardState)
    ensures
        c@ == r@,
{
    let mut entitlements = Vec::new();
    let mut i: usize = 0;
    while i < r.entitlements.len()
        invariant
            i <= r.entitlements@.len(),
            entitlements_view(entitlements@) == entitlements_view(r.entitlements@).subrange(0, i as int),
        decreases r.entitlements@.len() - i,
    {
        let ghost before = entitlements@;
        let d = r.entitlements[i].duplicate();
        entitlements.push(d);
        assert(entitlements_view(entitlements@) =~= entitlements_view(before).push(r.entitlements@[i as int]@));
        assert(entitlements_view(entitlements@) =~= entitlements_view(r.entitlements@).subrange(0, i + 1));
        i = i + 1;
    }
    let mut achievements = Vec::new();
    let mut j: usize = 0;
    while j < r.achievements.len()
        invariant
            j <= r.achievements@.len(),
            achievements_view(achievements@) == achievements_view(r.achievements@).subrange(0, j as int),
        decreases r.achievements@.len() - j,
    {
        let ghost before = achievements@;
        let d = r.achievements[j].duplicate();
        achievements.push(d);
        assert(achievements_view(achievements@) =~= achievements_view(before).push(r.achievements@[j as int]@));
        assert(achievements_view(achievements@) =~= achievements_view(r.achievements@).subrange(0, j + 1));
        j = j + 1;
    }
    let c = PlayerRewardState { entitlements, achievements };
    assert(c@.entitlements =~= r@.entitlements);
    assert(c@.achievements =~= r@.achievements);
    c
}

/// `GET /profiles/{id}/rewards`: the rewards, to their own player only.
pub fn get_rewards<S: LedgerStorage>(
    service: &PlayerProfileService<S>,
    session_player: Option<String>,
    path_player: &str,
) -> (r: ApiReply<PlayerRewardState>)
    ensures
        !may_access(crate::text::opt_view(session_player), path_player@) ==> is_unauthorized(r),
        may_access(crate::text::opt_view(session_player), path_player@) ==> match r {
            ApiReply::Success(v) => service.rewards().contains_key(path_player@) && v@ == service.rewards()[path_player@],
            ApiReply::NotFound => !service.rewards().contains_key(path_player@),
            _ => false,
        },
{
    if !same_player(&session_player, path_player) {
        return ApiReply::Unauthorized(String::new());
    }
    match service.get_reward_state(path_player) {
        Some(rewards) => ApiReply::Success(copy_rewards(rewards)),
        None => ApiReply::NotFound,
    }
}

/// `POST /profiles/{id}/dimensions`: sets the profile's vector, for its
/// own player only.
pub fn set_dimensions<S: LedgerStorage>(
    service: &mut PlayerProfileService<S>,
    session_player: Option<String>,
    path_player: &str,
    dim: usize,
    lanes: Vec<u64>,
) -> (r: ApiReply<()>)
    ensures
        !may_access(crate::text::opt_view(session_player), path_player@) ==> is_unauthorized(r)
            && old(service).unchanged(*final(service)),
        may_access(crate::text::opt_view(session_player), path_player@) ==> (r is Empty || r is NotFound)
            && (!old(service).profiles().contains_key(path_player@) ==> r is NotFound),
        may_access(crate::text::opt_view(session_player), path_player@) && old(service).profiles().contains_key(
            path_player@,
        ) ==> final(service).profiles() == old(service).profiles().insert(
            path_player@,
            with_vector(old(service).profiles()[path_player@], dim, lanes@),
        ) && final(service).rewards() == old(service).rewards() && final(service).claims() == old(
            service,
        ).claims(),
        may_access(crate::text::opt_view(session_player), path_player@) && !old(service).profiles().contains_key(
            path_player@,
        ) ==> old(service).unchanged(*final(service)),
{
    if !same_player(&session_player, path_player) {
        return ApiReply::Unauthorized(String::new());
    }
    match service.set_vector(path_player, BitVec { dim, lanes }) {
        Ok(()) => ApiReply::Empty,
        Err(_) => ApiReply::NotFound,
    }
}

/// The key of a concept.
pub open spec fn concept_key(developer: Seq<char>, game: Seq<char>, concept: Seq<char>) -> Seq<char> {
    developer + ":"@ + game + ":"@ + concept
}

fn concept_key_text(developer: &str, game: &str, concept: &str) -> (r: String)
    ensures
        r@ == concept_key(developer@, game@, concept@),
{
    let mut k = String::from_str(developer);
    k.append(":");
    k.append(game);
    k.append(":");
    k.append(concept);
    k
}

/// `POST /concepts`: the concept's vector, seeded from its key and
/// recorded the first time; for a developer token of that developer with
/// the concepts scope. Whether the registry changed comes back too.
pub fn add_concept(
    registry: &mut ConceptRegistry,
    header: Option<&str>,
    tokens: &[DeveloperTokenAuth],
    developer: &str,
    game: &str,
    concept: &str,
    dim: Option<usize>,
) -> (r: (ApiReply<BitVec>, bool))
    requires
        (match dim {
            Some(d) => d,
            None => DEFAULT_DIM,
        }) + 63 <= usize::MAX,
    ensures
        ({
            let k = concept_key(developer@, game@, concept@);
            let authorized = match presented_token(opt_str_view(header), tokens@) {
                Some(i) => tokens@[i].developer@ == developer@ && scope_set(tokens@[i].scopes@).contains(
                    SCOPE_MANAGE_CONCEPTS@,
                ),
                None => false,
            };
            &&& !authorized ==> is_unauthorized(r.0) && !r.1 && final(registry).map() == old(registry).map()
            &&& authorized && old(registry).map().contains_key(k) ==> (r.0 matches ApiReply::Success(
                v,
            ) && v.dim == old(registry).map()[k].dim && v.lanes@ == old(registry).map()[k].lanes@
                && !r.1 && final(registry).map() == old(registry).map())
            &&& authorized && !old(registry).map().contains_key(k) ==> (r.0 matches ApiReply::Success(
                v,
            ) && r.1 && final(registry).map() == old(registry).map().insert(k, final(registry).map()[k])
                && seeded_from(final(registry).map()[k], k, match dim {
                Some(d) => d,
                None => DEFAULT_DIM,
            }) && v.dim == final(registry).map()[k].dim && v.lanes@ == final(registry).map()[k].lanes@)
        }),
{
    if !developer_authorized_for(header, tokens, developer, SCOPE_MANAGE_CONCEPTS) {
        return (ApiReply::Unauthorized(String::new()), false);
    }
    let key = concept_key_text(developer, game, concept);
    let dim = match dim {
        Some(d) => d,
        None => DEFAULT_DIM,
    };
    match registry.get(key.as_str()) {
        Some(v) => {
            let copy = v.duplicate();
            (ApiReply::Success(copy), false)
        },
        None => {
            let v = BitVec::seed(key.as_str(), dim);
            let copy = v.duplicate();
            registry.insert(key, v);
            (ApiReply::Success(copy), true)
        },
    }
}

/// Whether the header presents a token of `developer` granting `scope`.
pub open spec fn developer_may(
    header: Option<Seq<char>>,
    tokens: Seq<DeveloperTokenAuth>,
    developer: Seq<char>,
    scope: Seq<char>,
) -> bool {
    match presented_token(header, tokens) {
        Some(i) => tokens[i].developer@ == developer && scope_set(tokens[i].scopes@).contains(scope),
        None => false,
    }
}

/// `GET /concepts/{developer}/{game}/{concept}`: the concept's vector, for
/// a developer token of that developer with the concepts scope.
pub fn get_concept(
    registry: &ConceptRegistry,
    header: Option<&str>,
    tokens: &[DeveloperTokenAuth],
    developer: &str,
    game: &str,
    concept: &str,
) -> (r: ApiReply<BitVec>)
    ensures
        !developer_may(opt_str_view(header), tokens@, developer@, SCOPE_MANAGE_CONCEPTS@) ==> is_unauthorized(r),
        developer_may(opt_str_view(header), tokens@, developer@, SCOPE_MANAGE_CONCEPTS@) ==> match r {
            ApiReply::Success(v) => registry.map().contains_key(concept_key(developer@, game@, concept@))
                && v.dim == registry.map()[concept_key(developer@, game@, concept@)].dim && v.lanes@
                == registry.map()[concept_key(developer@, game@, concept@)].lanes@,
            ApiReply::NotFound => !registry.map().contains_key(concept_key(developer@, game@, concept@)),
            _ => false,
        },
{
    if !developer_authorized_for(header, tokens, developer, SCOPE_MANAGE_CONCEPTS) {
        return ApiReply::Unauthorized(String::new());
    }
    let key = concept_key_text(developer, game, concept);
    match registry.get(key.as_str()) {
        Some(v) => ApiReply::Success(v.duplicate()),
        None => ApiReply::NotFound,
    }
}

/// `POST /profiles/{id}/concepts`: XORs a concept's vector into the
/// profile's, for its own player only.
pub fn add_concept_to_profile<S: LedgerStorage>(
    service: &mut PlayerProfileService<S>,
    registry: &ConceptRegistry,
    session_player: Option<String>,
    path_player: &str,
    developer: &str,
    game: &str,
    concept: &str,
) -> (r: ApiReply<()>)
    requires
        ({
            let k = concept_key(developer@, game@, concept@);
            old(service).profiles().contains_key(path_player@) && registry.map().contains_key(k)
                ==> old(service).profiles()[path_player@].dim == registry.map()[k].dim
        }),
    ensures
        !may_access(crate::text::opt_view(session_player), path_player@) ==> is_unauthorized(r)
            && old(service).unchanged(*final(service)),
        may_access(crate::text::opt_view(session_player), path_player@) && !registry.map().contains_key(
            concept_key(developer@, game@, concept@),
        ) ==> r is NotFound && old(service).unchanged(*final(service)),
        may_access(crate::text::opt_view(session_player), path_player@) ==> (r is Empty || r is NotFound),
        ({
            let k = concept_key(developer@, game@, concept@);
            may_access(crate::text::opt_view(session_player), path_player@) && registry.map().contains_key(k)
                && old(service).profiles().contains_key(path_player@) ==> final(service).profiles() == old(
                service,
            ).profiles().insert(
                path_player@,
                with_vector(
                    old(service).profiles()[path_player@],
                    registry.map()[k].dim,
                    xor_lanes(old(service).profiles()[path_player@].lanes, registry.map()[k].lanes@),
                ),
            ) && final(service).rewards() == old(service).rewards() && final(service).claims() == old(
                service,
            ).claims()
        }),
        ({
            let k = concept_key(developer@, game@, concept@);
            may_access(crate::text::opt_view(session_player), path_player@) && registry.map().contains_key(k)
                && !old(service).profiles().contains_key(path_player@) ==> r is NotFound && old(
                service,
            ).unchanged(*final(service))
        }),
{
    if !same_player(&session_player, path_player) {
        return ApiReply::Unauthorized(String::new());
    }
    let key = concept_key_text(developer, game, concept);
    match registry.get(key.as_str()) {
        Some(v) => match service.merge_vector(path_player, v) {
            Ok(()) => ApiReply::Empty,
            Err(_) => ApiReply::NotFound,
        },
        None => ApiReply::NotFound,
    }
}

/// `POST /profiles/{id}/achievement-claims`: records the claim for its own
/// player; accepted, or not found where there is no profile.
pub fn submit_achievement_claim_to_profile<S: LedgerStorage>(
    service: &mut PlayerProfileService<S>,
    session_player: Option<String>,
    path_player: &str,
    claim: AchievementClaimInput,
) -> (r: ApiReply<AchievementClaim>)
    ensures
        !may_access(crate::text::opt_view(session_player), path_player@) ==> is_unauthorized(r)
            && old(service).unchanged(*final(service)),
        may_access(crate::text::opt_view(session_player), path_player@) ==> (!old(service).profiles().contains_key(
            path_player@,
        ) ==> r is NotFound),
        may_access(crate::text::opt_view(session_player), path_player@) ==> (r is Accepted || r is NotFound
            || r is InternalServerError),
        may_access(crate::text::opt_view(session_player), path_player@) && old(service).profiles().contains_key(
            path_player@,
        ) ==> {
            &&& final(service).profiles() == old(service).profiles()
            &&& final(service).rewards() == old(service).rewards()
            &&& match claim_index(claims_or_empty(old(service).claims(), path_player@), claim.claim_id@) {
                Some(i) => (r matches ApiReply::Accepted(c) && c@ == old(service).claims()[path_player@][i])
                    && final(service).claims() == old(service).claims(),
                None => claim_index(final(service).claims()[path_player@], claim.claim_id@) == Some(
                    claims_or_empty(old(service).claims(), path_player@).len() as int,
                ) && (r matches ApiReply::Accepted(c) ==> c@ == final(service).claims()[path_player@].last()),
            }
        },
{
    if !same_player(&session_player, path_player) {
        return ApiReply::Unauthorized(String::new());
    }
    match service.submit_achievement_claim(path_player, claim) {
        Ok(stored) => ApiReply::Accepted(stored),
        Err(e) => if e.kind == ProfileErrorKind::NotFound {
            ApiReply::NotFound
        } else {
            ApiReply::InternalServerError
        },
    }
}

/// `GET /profiles/{id}/achievement-claims`: the claims of the session's
/// player, oldest first.
pub fn list_achievement_claims_of_profile<S: LedgerStorage>(
    service: &PlayerProfileService<S>,
    session_player: Option<String>,
    path_player: &str,
) -> (r: ApiReply<Vec<AchievementClaim>>)
    ensures
        !may_access(crate::text::opt_view(session_player), path_player@) ==> is_unauthorized(r),
        may_access(crate::text::opt_view(session_player), path_player@) ==> match r {
            ApiReply::Success(v) => service.profiles().contains_key(path_player@) && claims_view(v@)
                == claims_or_empty(service.claims(), path_player@),
            ApiReply::NotFound => !service.profiles().contains_key(path_player@),
            _ => false,
        },
{
    if !same_player(&session_player, path_player) {
        return ApiReply::Unauthorized(String::new());
    }
    if service.get_profile(path_player).is_none() {
        return ApiReply::NotFound;
    }
    let mut out: Vec<AchievementClaim> = Vec::new();
    match service.get_achievement_claims(path_player) {
        Some(claims) => {
            let mut i: usize = 0;
            while i < claims.len()
                invariant
                    i <= claims@.len(),
                    claims_view(out@) == claims_view(claims@).subrange(0, i as int),
                decreases claims@.len() - i,
            {
                let ghost before = out@;
                out.push(claims[i].duplicate());
                proof {
                    assert(claims_view(out@) =~= claims_view(before).push(claims@[i as int]@));
                    assert(claims_view(claims@).subrange(0, i + 1) =~= claims_view(claims@).subrange(0, i as int).push(claims@[i as int]@));
                }
                i = i + 1;
            }
            assert(claims_view(claims@).subrange(0, i as int) =~= claims_view(claims@));
        },
        None => {
            assert(claims_view(out@) =~= Seq::<crate::profile::AchievementClaimView>::empty());
        },
    }
    ApiReply::Success(out)
}

/// The definition `registry` holds for the identity, if any.
pub open spec fn registered(
    registry: AchievementRegistry,
    developer: Seq<char>,
    game: Seq<char>,
    achievement_id: Seq<char>,
    version: u32,
) -> Option<crate::achievement::AchievementDefinitionView> {
    let k = registry_key(developer, game, achievement_id, version);
    if registry.map().contains_key(k) {
        Some(registry.map()[k]@)
    } else {
        None
    }
}

/// How a review answers: the reviewed claim, not found, a bad request with
/// the service's message, or an internal error.
pub open spec fn review_reply(
    res: Result<(AchievementClaim, Option<AwardRecord>), ProfileError>,
    r: ApiReply<AchievementClaim>,
) -> bool {
    match res {
        Ok((c, _)) => r matches ApiReply::Success(x) && x@ == c@,
        Err(e) => if e.kind == ProfileErrorKind::NotFound {
            r is NotFound
        } else if e.kind == ProfileErrorKind::InvalidInput {
            r matches ApiReply::BadRequest(m) && m@ == e.message@
        } else {
            r is InternalServerError
        },
    }
}

/// `POST /profiles/{id}/achievement-claims/{claim_id}/review`: reviews a
/// claim, for a developer token of the claim's developer with the award
/// scope, against the definition the registry holds for the claim; the
/// claim names that developer as the one who decided it.
pub fn review_achievement_claim_of_profile<S: LedgerStorage>(
    service: &mut PlayerProfileService<S>,
    registry: &AchievementRegistry,
    header: Option<&str>,
    tokens: &[DeveloperTokenAuth],
    path_player: &str,
    claim_id: &str,
    action: AchievementClaimReviewAction,
    review_note: Option<String>,
) -> (r: ApiReply<AchievementClaim>)
    ensures
        ({
            let known = claims_or_empty(old(service).claims(), path_player@);
            match claim_index(known, claim_id@) {
                None => r is NotFound && old(service).unchanged(*final(service)),
                Some(i) => {
                    let c = known[i];
                    if !developer_may(opt_str_view(header), tokens@, c.developer, SCOPE_AWARD_ACHIEVEMENTS@) {
                        is_unauthorized(r) && old(service).unchanged(*final(service))
                    } else {
                        exists|res: Result<(AchievementClaim, Option<AwardRecord>), ProfileError>|
                            #[trigger] old(service).claim_reviewed(
                                *final(service),
                                res,
                                path_player@,
                                claim_id@,
                                c.developer,
                                action,
                                crate::text::opt_view(review_note),
                                registered(*registry, c.developer, c.game, c.achievement_id, c.version),
                            ) && review_reply(res, r)
                    }
                },
            }
        }),
{
    let claim = match service.get_achievement_claim(path_player, claim_id) {
        Some(c) => c.duplicate(),
        None => {
            return ApiReply::NotFound;
        },
    };
    if !developer_authorized_for(header, tokens, claim.developer.as_str(), SCOPE_AWARD_ACHIEVEMENTS) {
        return ApiReply::Unauthorized(String::new());
    }
    let definition = registry.get(
        claim.developer.as_str(),
        claim.game.as_str(),
        claim.achievement_id.as_str(),
        claim.version,
    );
    let ghost note = crate::text::opt_view(review_note);
    let ghost dv = crate::profile::definition_view(definition);
    proof {
        let known = claims_or_empty(old(service).claims(), path_player@);
        let k = registry_key(claim@.developer, claim@.game, claim@.achievement_id, claim@.version);
        assert(claim_index(known, claim_id@) matches Some(i) && known[i] == claim@);
        assert(dv == (if registry.map().contains_key(k) { Some(registry.map()[k]@) } else { None }));
    }
    let res = service.review_achievement_claim(
        path_player,
        claim_id,
        claim.developer.as_str(),
        action,
        review_note,
        definition,
    );
    assert(old(service).claim_reviewed(*service, res, path_player@, claim_id@, claim@.developer, action, note, dv));
    let r = match &res {
        Ok((c, _)) => ApiReply::Success(c.duplicate()),
        Err(e) => if e.kind == ProfileErrorKind::NotFound {
            ApiReply::NotFound
        } else if e.kind == ProfileErrorKind::InvalidInput {
            ApiReply::BadRequest(copy_string(&e.message))
        } else {
            ApiReply::InternalServerError
        },
    };
    assert(review_reply(res, r));
    r
}

/// `POST /profiles/{id}/achievement-claim-envelopes`: acknowledges a
/// canonical claim for the session's player against the definition the
/// registry holds for its record.
pub fn submit_claim_envelope_to_profile<S: LedgerStorage>(
    service: &mut PlayerProfileService<S>,
    registry: &AchievementRegistry,
    session_player: Option<String>,
    path_player: &str,
    envelope: EabClaimEnvelope,
) -> (r: ApiReply<EabClaimAcknowledgement>)
    ensures
        !may_access(crate::text::opt_view(session_player), path_player@) ==> is_unauthorized(r)
            && old(service).unchanged(*final(service)),
        may_access(crate::text::opt_view(session_player), path_player@) ==> ({
            let rec = envelope@.record;
            exists|res: Result<EabClaimAcknowledgement, ProfileError>|
                #[trigger] old(service).acknowledged_claim(
                    *final(service),
                    res,
                    path_player@,
                    envelope@,
                    registered(*registry, rec.developer, rec.game, rec.achievement_id, rec.version),
                )
                && match res {
                    Ok(a) => r matches ApiReply::Success(x) && x@ == a@,
                    Err(e) => if e.kind == ProfileErrorKind::NotFound {
                        r is NotFound
                    } else {
                        r is InternalServerError
                    },
                }
        }),
{
    if !same_player(&session_player, path_player) {
        return ApiReply::Unauthorized(String::new());
    }
    let ghost ev = envelope@;
    let ghost d = {
        let rec = ev.record;
        let k = registry_key(rec.developer, rec.game, rec.achievement_id, rec.version);
        if registry.map().contains_key(k) {
            Some(registry.map()[k]@)
        } else {
            None
        }
    };
    let res = acknowledge_with_registry(service, registry, path_player, envelope);
    assert(old(service).acknowledged_claim(*service, res, path_player@, ev, d));
    match &res {
        Ok(a) => ApiReply::Success(a.duplicate()),
        Err(e) => if e.kind == ProfileErrorKind::NotFound {
            ApiReply::NotFound
        } else {
            ApiReply::InternalServerError
        },
    }
}

/// `GET /profiles/{id}/achievement-claims/{claim_id}/acknowledgement`: the
/// stored acknowledgement of the session player's canonical claim.
pub fn get_claim_acknowledgement_of_profile<S: LedgerStorage>(
    service: &PlayerProfileService<S>,
    session_player: Option<String>,
    path_player: &str,
    claim_id: &str,
) -> (r: ApiReply<EabClaimAcknowledgement>)
    ensures
        !may_access(crate::text::opt_view(session_player), path_player@) ==> is_unauthorized(r),
        may_access(crate::text::opt_view(session_player), path_player@) ==> match r {
            ApiReply::Success(a) => service.claims().contains_key(path_player@) && (claim_index(
                service.claims()[path_player@],
                claim_id@,
            ) matches Some(i) && service.claims()[path_player@][i].acknowledgement == Some(a@)),
            ApiReply::NotFound => !service.claims().contains_key(path_player@) || (claim_index(
                service.claims()[path_player@],
                claim_id@,
            ) matches Some(i) ==> service.claims()[path_player@][i].acknowledgement is None),
            _ => false,
        },
{
    if !same_player(&session_player, path_player) {
        return ApiReply::Unauthorized(String::new());
    }
    match service.get_claim_acknowledgement(path_player, claim_id) {
        Some(a) => ApiReply::Success(a.duplicate()),
        None => ApiReply::NotFound,
    }
}

/// `POST /achievements`: registers a definition, for a developer token of
/// its developer with the registration scope.
pub fn add_achievement(
    registry: &mut AchievementRegistry,
    header: Option<&str>,
    tokens: &[DeveloperTokenAuth],
    developer: &str,
    game: &str,
    achievement_id: &str,
    version: u32,
    name: &str,
    description: &str,
) -> (r: ApiReply<()>)
    ensures
        !developer_may(opt_str_view(header), tokens@, developer@, SCOPE_REGISTER_DEFINITIONS@) ==> is_unauthorized(r)
            && final(registry).map() == old(registry).map(),
        developer_may(opt_str_view(header), tokens@, developer@, SCOPE_REGISTER_DEFINITIONS@) ==> r is Empty
            && final(registry).map().dom() == old(registry).map().dom().insert(
            registry_key(developer@, game@, achievement_id@, version),
        ) && ({
            let k = registry_key(developer@, game@, achievement_id@, version);
            let d = final(registry).map()[k]@;
            &&& final(registry).map().remove(k) == old(registry).map().remove(k)
            &&& d.developer == developer@ && d.game == game@ && d.achievement_id == achievement_id@
            &&& d.version == version && d.name == name@ && d.description == description@
            &&& d.category == Seq::<char>::empty()
            &&& d.policy == (crate::achievement::AchievementAwardPolicy {
                visibility: crate::achievement::AchievementVisibility::Private,
                repeatability: crate::achievement::AchievementRepeatability::OncePerPlayer,
                issuance_mode: crate::achievement::AchievementIssuanceMode::DirectAwardOrClaimReview,
            })
        }),
{
    if !developer_authorized_for(header, tokens, developer, SCOPE_REGISTER_DEFINITIONS) {
        return ApiReply::Unauthorized(String::new());
    }
    let def = AchievementDefinition::new(developer, game, achievement_id, version, name, description);
    registry.insert(def);
    ApiReply::Empty
}

/// `POST /entitlements`: registers a definition, for a developer token of
/// its developer with the registration scope.
pub fn add_entitlement(
    registry: &mut EntitlementRegistry,
    header: Option<&str>,
    tokens: &[DeveloperTokenAuth],
    def: EntitlementDefinition,
) -> (r: ApiReply<()>)
    ensures
        !developer_may(opt_str_view(header), tokens@, def.developer@, SCOPE_REGISTER_DEFINITIONS@) ==> is_unauthorized(r)
            && final(registry).map() == old(registry).map(),
        developer_may(opt_str_view(header), tokens@, def.developer@, SCOPE_REGISTER_DEFINITIONS@) ==> r is Empty
            && final(registry).map() == old(registry).map().insert(
            registry_key(def.developer@, def.game@, def.entitlement_id@, def.version),
            def,
        ),
{
    if !developer_authorized_for(header, tokens, def.developer.as_str(), SCOPE_REGISTER_DEFINITIONS) {
        return ApiReply::Unauthorized(String::new());
    }
    registry.insert(def);
    ApiReply::Empty
}

/// `POST /profiles/{id}/achievements`: awards a registered achievement,
/// for a developer token of its developer with the award scope; the
/// player's newest transaction as receipt.
pub fn award_achievement_to_profile<S: LedgerStorage>(
    service: &mut PlayerProfileService<S>,
    registry: &AchievementRegistry,
    header: Option<&str>,
    tokens: &[DeveloperTokenAuth],
    path_player: &str,
    developer: &str,
    game: &str,
    achievement_id: &str,
    version: u32,
) -> (r: ApiReply<AwardRecord>)
    ensures
        !developer_may(opt_str_view(header), tokens@, developer@, SCOPE_AWARD_ACHIEVEMENTS@) ==> is_unauthorized(r)
            && old(service).unchanged(*final(service)),
        developer_may(opt_str_view(header), tokens@, developer@, SCOPE_AWARD_ACHIEVEMENTS@)
            && !registry.map().contains_key(registry_key(developer@, game@, achievement_id@, version))
            ==> r is NotFound && old(service).unchanged(*final(service)),
        developer_may(opt_str_view(header), tokens@, developer@, SCOPE_AWARD_ACHIEVEMENTS@)
            && registry.map().contains_key(registry_key(developer@, game@, achievement_id@, version))
            && !old(service).profiles().contains_key(path_player@) ==> r is NotFound,
        ({
            let k = registry_key(developer@, game@, achievement_id@, version);
            developer_may(opt_str_view(header), tokens@, developer@, SCOPE_AWARD_ACHIEVEMENTS@)
                && registry.map().contains_key(k) && old(service).profiles().contains_key(path_player@) ==> {
                &&& old(service).achievement_award_step(*final(service), path_player@, registry.map()[k]@)
                &&& (r is Success || r is Empty || r is NotFound || r is InternalServerError)
                &&& (r matches ApiReply::Success(rec) ==> match latest_receipt_at(final(service).chain(), path_player@) {
                    Some((b, j)) => 0 <= b < final(service).chain().len() && record_of_tx(rec, final(service).chain()[b], j),
                    None => false,
                })
            }
        }),
{
    if !developer_authorized_for(header, tokens, developer, SCOPE_AWARD_ACHIEVEMENTS) {
        return ApiReply::Unauthorized(String::new());
    }
    match registry.get(developer, game, achievement_id, version) {
        Some(def) => match service.award_achievement(path_player, def) {
            Ok(_) => match service.latest_award_receipt(path_player) {
                Some(receipt) => ApiReply::Success(receipt),
                None => ApiReply::Empty,
            },
            Err(e) => if e.kind == ProfileErrorKind::NotFound {
                ApiReply::NotFound
            } else {
                ApiReply::InternalServerError
            },
        },
        None => ApiReply::NotFound,
    }
}

/// `POST /profiles/{id}/entitlements`: grants a registered entitlement,
/// for a developer token of its developer with the grant scope; the
/// player's newest transaction as receipt.
pub fn award_entitlement_to_profile<S: LedgerStorage>(
    service: &mut PlayerProfileService<S>,
    registry: &EntitlementRegistry,
    header: Option<&str>,
    tokens: &[DeveloperTokenAuth],
    path_player: &str,
    developer: &str,
    game: &str,
    entitlement_id: &str,
    version: u32,
    quantity: u32,
    expiration_date: Option<String>,
) -> (r: ApiReply<AwardRecord>)
    ensures
        !developer_may(opt_str_view(header), tokens@, developer@, SCOPE_GRANT_ENTITLEMENTS@) ==> is_unauthorized(r)
            && old(service).unchanged(*final(service)),
        developer_may(opt_str_view(header), tokens@, developer@, SCOPE_GRANT_ENTITLEMENTS@)
            && !registry.map().contains_key(registry_key(developer@, game@, entitlement_id@, version))
            ==> r is NotFound && old(service).unchanged(*final(service)),
        developer_may(opt_str_view(header), tokens@, developer@, SCOPE_GRANT_ENTITLEMENTS@)
            && registry.map().contains_key(registry_key(developer@, game@, entitlement_id@, version))
            && !old(service).profiles().contains_key(path_player@) ==> r is NotFound,
        ({
            let k = registry_key(developer@, game@, entitlement_id@, version);
            let ev = entitlement_award(registry.map()[k], quantity, crate::text::opt_view(expiration_date));
            let before = reward_or_empty(old(service).rewards(), path_player@);
            developer_may(opt_str_view(header), tokens@, developer@, SCOPE_GRANT_ENTITLEMENTS@)
                && registry.map().contains_key(k) && old(service).profiles().contains_key(path_player@) ==> {
                &&& final(service).profiles() == old(service).profiles()
                &&& final(service).claims() == old(service).claims()
                &&& final(service).rewards() == old(service).rewards().insert(
                    path_player@,
                    (PlayerRewardStateView {
                        entitlements: before.entitlements.push(ev),
                        achievements: before.achievements,
                    }),
                )
                &&& (r is Success || r is Empty || r is NotFound || r is InternalServerError)
                &&& (r matches ApiReply::Success(rec) ==> match latest_receipt_at(final(service).chain(), path_player@) {
                    Some((b, j)) => 0 <= b < final(service).chain().len() && record_of_tx(rec, final(service).chain()[b], j),
                    None => false,
                })
            }
        }),
{
    if !developer_authorized_for(header, tokens, developer, SCOPE_GRANT_ENTITLEMENTS) {
        return ApiReply::Unauthorized(String::new());
    }
    match registry.get(developer, game, entitlement_id, version) {
        Some(def) => match service.award_entitlement(path_player, def, quantity, expiration_date) {
            Ok(_) => match service.latest_award_receipt(path_player) {
                Some(receipt) => ApiReply::Success(receipt),
                None => ApiReply::Empty,
            },
            Err(e) => if e.kind == ProfileErrorKind::NotFound {
                ApiReply::NotFound
            } else {
                ApiReply::InternalServerError
            },
        },
        None => ApiReply::NotFound,
    }
}

/// `POST /identity/exchange`: the session, or why the exchange failed.
pub fn exchange_identity_reply(result: Result<ExchangeResult, IdentityError>) -> (r: ApiReply<ExchangeResult>)
    ensures
        match result {
            Ok(x) => r matches ApiReply::Success(y) && y.access_token@ == x.access_token@ && y.player_id@
                == x.player_id@ && y.is_new_player == x.is_new_player,
            Err(IdentityError::UnsupportedProvider) => r matches ApiReply::BadRequest(m) && m@
                == "unsupported provider"@,
            Err(IdentityError::InvalidToken) => r matches ApiReply::Unauthorized(m) && m@ == "invalid token"@,
            Err(IdentityError::StorageError) => r is InternalServerError,
        },
{
    match result {
        Ok(x) => ApiReply::Success(x),
        Err(IdentityError::UnsupportedProvider) => ApiReply::BadRequest(String::from_str("unsupported provider")),
        Err(IdentityError::InvalidToken) => ApiReply::Unauthorized(String::from_str("invalid token")),
        Err(IdentityError::StorageError) => ApiReply::InternalServerError,
    }
}

} // verus!
