//! Achievement definitions: identity, presentation, award policy and the
//! accomplishment that earns them, and the JSON form that their digest is
//! taken over.

use vstd::prelude::*;
use crate::text::{copy_opt_string, copy_string, opt_view};
use crate::json::{
    json_bool, json_decimal, json_key, json_opt_decimal, json_opt_str, json_str, write_json_bool,
    write_json_close, write_json_decimal, write_json_key, write_json_opt_decimal,
    write_json_opt_str, write_json_str, CLOSE_BRACE, json_text_str, push_json_text_str,
};

verus! {

/// Whether an award is private to the player or carries a public proof.
#[derive(Clone, Copy, Debug, PartialEq, Eq, Structural)]
pub enum AchievementVisibility {
    Private,
    PublicProof,
}

/// Whether a player can earn an achievement once or many times.
#[derive(Clone, Copy, Debug, PartialEq, Eq, Structural)]
pub enum AchievementRepeatability {
    OncePerPlayer,
    Repeatable,
}

/// The paths by which an achievement may be issued.
#[derive(Clone, Copy, Debug, PartialEq, Eq, Structural)]
pub enum AchievementIssuanceMode {
    DirectAwardOnly,
    ClaimReviewOnly,
    DirectAwardOrClaimReview,
}

impl Default for AchievementVisibility {
    fn default() -> (r: Self)
        ensures
            r == AchievementVisibility::Private,
    {
        AchievementVisibility::Private
    }
}

impl Default for AchievementRepeatability {
    fn default() -> (r: Self)
        ensures
            r == AchievementRepeatability::OncePerPlayer,
    {
        AchievementRepeatability::OncePerPlayer
    }
}

impl Default for AchievementIssuanceMode {
    fn default() -> (r: Self)
        ensures
            r == AchievementIssuanceMode::DirectAwardOrClaimReview,
    {
        AchievementIssuanceMode::DirectAwardOrClaimReview
    }
}

#[derive(Clone, Debug, PartialEq, Eq)]
pub struct AchievementIdentity {
    pub developer: String,
    pub game: String,
    pub achievement_id: String,
    pub version: u32,
}

#[derive(Clone, Debug, PartialEq, Eq)]
pub struct AchievementPresentation {
    pub name: String,
    pub description: String,
    pub category: String,
}

#[derive(Clone, Debug, PartialEq, Eq)]
pub struct AchievementAccomplishment {
    pub summary: String,
    pub event_key: Option<String>,
    pub threshold: Option<u64>,
    pub requires_evidence: bool,
}

#[derive(Clone, Copy, Debug, PartialEq, Eq, Structural)]
pub struct AchievementAwardPolicy {
    pub visibility: AchievementVisibility,
    pub repeatability: AchievementRepeatability,
    pub issuance_mode: AchievementIssuanceMode,
}

#[derive(Clone, Debug, PartialEq, Eq)]
pub struct AchievementAwardMetadata {
    pub category: String,
    pub visibility: AchievementVisibility,
    pub repeatability: AchievementRepeatability,
    pub issuance_mode: AchievementIssuanceMode,
}

#[derive(Clone, Debug, PartialEq, Eq)]
pub struct AchievementDefinition {
    pub identity: AchievementIdentity,
    pub presentation: AchievementPresentation,
    pub policy: AchievementAwardPolicy,
    pub accomplishment: AchievementAccomplishment,
}

/// A definition with its texts as characters.
pub struct AchievementDefinitionView {
    pub developer: Seq<char>,
    pub game: Seq<char>,
    pub achievement_id: Seq<char>,
    pub version: u32,
    pub name: Seq<char>,
    pub description: Seq<char>,
    pub category: Seq<char>,
    pub policy: AchievementAwardPolicy,
    pub summary: Seq<char>,
    pub event_key: Option<Seq<char>>,
    pub threshold: Option<u64>,
    pub requires_evidence: bool,
}

impl View for AchievementDefinition {
    type V = AchievementDefinitionView;

    open spec fn view(&self) -> AchievementDefinitionView {
        AchievementDefinitionView {
            developer: self.identity.developer@,
            game: self.identity.game@,
            achievement_id: self.identity.achievement_id@,
            version: self.identity.version,
            name: self.presentation.name@,
            description: self.presentation.description@,
            category: self.presentation.category@,
            policy: self.policy,
            summary: self.accomplishment.summary@,
            event_key: opt_view(self.accomplishment.event_key),
            threshold: self.accomplishment.threshold,
            requires_evidence: self.accomplishment.requires_evidence,
        }
    }
}

/// Claim review is open under the issuance mode.
pub open spec fn mode_allows_claim_review(mode: AchievementIssuanceMode) -> bool {
    mode == AchievementIssuanceMode::ClaimReviewOnly || mode
        == AchievementIssuanceMode::DirectAwardOrClaimReview
}

/// Direct award is open under the issuance mode.
pub open spec fn mode_allows_direct_award(mode: AchievementIssuanceMode) -> bool {
    mode == AchievementIssuanceMode::DirectAwardOnly || mode
        == AchievementIssuanceMode::DirectAwardOrClaimReview
}

impl AchievementAccomplishment {
    /// An empty summary, no event, no threshold and no evidence required.
    pub fn empty() -> (r: Self)
        ensures
            r.summary@ == Seq::<char>::empty(),
            r.event_key is None,
            r.threshold is None,
            !r.requires_evidence,
    {
        AchievementAccomplishment {
            summary: String::new(),
            event_key: None,
            threshold: None,
            requires_evidence: false,
        }
    }
}

impl AchievementDefinition {
    /// A definition with an empty category, the default policy (private,
    /// once per player, direct award or claim review) and an empty
    /// accomplishment.
    pub fn new(
        developer: &str,
        game: &str,
        achievement_id: &str,
        version: u32,
        name: &str,
        description: &str,
    ) -> (r: Self)
        ensures
            r@.developer == developer@,
            r@.game == game@,
            r@.achievement_id == achievement_id@,
            r@.version == version,
            r@.name == name@,
            r@.description == description@,
            r@.category == Seq::<char>::empty(),
            r@.policy == (AchievementAwardPolicy {
                visibility: AchievementVisibility::Private,
                repeatability: AchievementRepeatability::OncePerPlayer,
                issuance_mode: AchievementIssuanceMode::DirectAwardOrClaimReview,
            }),
            r@.summary == Seq::<char>::empty(),
            r@.event_key is None,
            r@.threshold is None,
            !r@.requires_evidence,
    {
        AchievementDefinition {
            identity: AchievementIdentity {
                developer: String::from_str(developer),
                game: String::from_str(game),
                achievement_id: String::from_str(achievement_id),
                version,
            },
            presentation: AchievementPresentation {
                name: String::from_str(name),
                description: String::from_str(description),
                category: String::new(),
            },
            policy: AchievementAwardPolicy {
                visibility: AchievementVisibility::Private,
                repeatability: AchievementRepeatability::OncePerPlayer,
                issuance_mode: AchievementIssuanceMode::DirectAwardOrClaimReview,
            },
            accomplishment: AchievementAccomplishment::empty(),
        }
    }

    /// The same definition with `category`.
    pub fn with_category(self, category: &str) -> (r: Self)
        ensures
            r@ == (AchievementDefinitionView { category: category@, ..self@ }),
    {
        let mut d = self;
        d.presentation.category = String::from_str(category);
        d
    }

    /// The same definition with the given policy.
    pub fn with_policy(
        self,
        visibility: AchievementVisibility,
        repeatability: AchievementRepeatability,
        issuance_mode: AchievementIssuanceMode,
    ) -> (r: Self)
        ensures
            r@ == (AchievementDefinitionView {
                policy: AchievementAwardPolicy { visibility, repeatability, issuance_mode },
                ..self@
            }),
    {
        let mut d = self;
        d.policy.visibility = visibility;
        d.policy.repeatability = repeatability;
        d.policy.issuance_mode = issuance_mode;
        d
    }

    /// The same definition with `accomplishment`.
    pub fn with_accomplishment(self, accomplishment: AchievementAccomplishment) -> (r: Self)
        ensures
            r@ == (AchievementDefinitionView {
                summary: accomplishment.summary@,
                event_key: opt_view(accomplishment.event_key),
                threshold: accomplishment.threshold,
                requires_evidence: accomplishment.requires_evidence,
                ..self@
            }),
    {
        let mut d = self;
        d.accomplishment = accomplishment;
        d
    }

    pub fn developer(&self) -> (r: &str)
        ensures
            r@ == self@.developer,
    {
        self.identity.developer.as_str()
    }

    pub fn game(&self) -> (r: &str)
        ensures
            r@ == self@.game,
    {
        self.identity.game.as_str()
    }

    pub fn achievement_id(&self) -> (r: &str)
        ensures
            r@ == self@.achievement_id,
    {
        self.identity.achievement_id.as_str()
    }

    pub fn version(&self) -> (r: u32)
        ensures
            r == self@.version,
    {
        self.identity.version
    }

    pub fn name(&self) -> (r: &str)
        ensures
            r@ == self@.name,
    {
        self.presentation.name.as_str()
    }

    pub fn description(&self) -> (r: &str)
        ensures
            r@ == self@.description,
    {
        self.presentation.description.as_str()
    }

    pub fn category(&self) -> (r: &str)
        ensures
            r@ == self@.category,
    {
        self.presentation.category.as_str()
    }

    /// The accomplishment summary, or the description where it is empty.
    pub fn accomplishment_summary(&self) -> (r: &str)
        ensures
            r@ == (if self@.summary.len() == 0 {
                self@.description
            } else {
                self@.summary
            }),
    {
        if self.accomplishment.summary.as_str().is_empty() {
            self.description()
        } else {
            self.accomplishment.summary.as_str()
        }
    }

    /// The category and policy that an award of this definition carries.
    pub fn award_metadata(&self) -> (r: AchievementAwardMetadata)
        ensures
            r.category@ == self@.category,
            r.visibility == self@.policy.visibility,
            r.repeatability == self@.policy.repeatability,
            r.issuance_mode == self@.policy.issuance_mode,
    {
        AchievementAwardMetadata {
            category: copy_string(&self.presentation.category),
            visibility: self.policy.visibility,
            repeatability: self.policy.repeatability,
            issuance_mode: self.policy.issuance_mode,
        }
    }

    pub fn allows_direct_award(&self) -> (r: bool)
        ensures
            r == mode_allows_direct_award(self@.policy.issuance_mode),
    {
        match self.policy.issuance_mode {
            AchievementIssuanceMode::DirectAwardOnly => true,
            AchievementIssuanceMode::DirectAwardOrClaimReview => true,
            AchievementIssuanceMode::ClaimReviewOnly => false,
        }
    }

    pub fn allows_claim_review(&self) -> (r: bool)
        ensures
            r == mode_allows_claim_review(self@.policy.issuance_mode),
    {
        match self.policy.issuance_mode {
            AchievementIssuanceMode::ClaimReviewOnly => true,
            AchievementIssuanceMode::DirectAwardOrClaimReview => true,
            AchievementIssuanceMode::DirectAwardOnly => false,
        }
    }

    pub fn should_be_public_proof(&self) -> (r: bool)
        ensures
            r == (self@.policy.visibility == AchievementVisibility::PublicProof),
    {
        match self.policy.visibility {
            AchievementVisibility::PublicProof => true,
            AchievementVisibility::Private => false,
        }
    }

    pub fn is_repeatable(&self) -> (r: bool)
        ensures
            r == (self@.policy.repeatability == AchievementRepeatability::Repeatable),
    {
        match self.policy.repeatability {
            AchievementRepeatability::Repeatable => true,
            AchievementRepeatability::OncePerPlayer => false,
        }
    }

    /// A copy with the same view.
    pub fn duplicate(&self) -> (r: Self)
        ensures
            r@ == self@,
    {
        AchievementDefinition {
            identity: AchievementIdentity {
                developer: copy_string(&self.identity.developer),
                game: copy_string(&self.identity.game),
                achievement_id: copy_string(&self.identity.achievement_id),
                version: self.identity.version,
            },
            presentation: AchievementPresentation {
                name: copy_string(&self.presentation.name),
                description: copy_string(&self.presentation.description),
                category: copy_string(&self.presentation.category),
            },
            policy: self.policy,
            accomplishment: AchievementAccomplishment {
                summary: copy_string(&self.accomplishment.summary),
                event_key: copy_opt_string(&self.accomplishment.event_key),
                threshold: self.accomplishment.threshold,
                requires_evidence: self.accomplishment.requires_evidence,
            },
        }
    }
}

// ---------------------------------------------------------------------
// JSON form
// ---------------------------------------------------------------------

/// The snake-case name of a visibility.
pub open spec fn visibility_name(v: AchievementVisibility) -> Seq<char> {
    match v {
        AchievementVisibility::Private => "private"@,
        AchievementVisibility::PublicProof => "public_proof"@,
    }
}

/// The snake-case name of a repeatability.
pub open spec fn repeatability_name(r: AchievementRepeatability) -> Seq<char> {
    match r {
        AchievementRepeatability::OncePerPlayer => "once_per_player"@,
        AchievementRepeatability::Repeatable => "repeatable"@,
    }
}

/// The snake-case name of an issuance mode.
pub open spec fn issuance_mode_name(m: AchievementIssuanceMode) -> Seq<char> {
    match m {
        AchievementIssuanceMode::DirectAwardOnly => "direct_award_only"@,
        AchievementIssuanceMode::ClaimReviewOnly => "claim_review_only"@,
        AchievementIssuanceMode::DirectAwardOrClaimReview => "direct_award_or_claim_review"@,
    }
}

/// The accomplishment object.
pub open spec fn accomplishment_json(d: AchievementDefinitionView) -> Seq<u8> {
    json_key(true, "summary"@) + json_str(d.summary) + json_key(false, "event_key"@)
        + json_opt_str(d.event_key) + json_key(false, "threshold"@) + json_opt_decimal(
        d.threshold,
    ) + json_key(false, "requires_evidence"@) + json_bool(d.requires_evidence) + seq![
        CLOSE_BRACE,
    ]
}

/// The JSON text of a definition: identity, presentation and policy
/// members inline, then the accomplishment object.
#[verifier::opaque]
pub open spec fn definition_json(d: AchievementDefinitionView) -> Seq<u8> {
    json_key(true, "developer"@) + json_str(d.developer) + json_key(false, "game"@) + json_str(
        d.game,
    ) + json_key(false, "achievement_id"@) + json_str(d.achievement_id) + json_key(
        false,
        "version"@,
    ) + json_decimal(d.version as nat) + json_key(false, "name"@) + json_str(d.name) + json_key(
        false,
        "description"@,
    ) + json_str(d.description) + json_key(false, "category"@) + json_str(d.category) + json_key(
        false,
        "visibility"@,
    ) + json_str(visibility_name(d.policy.visibility)) + json_key(false, "repeatability"@)
        + json_str(repeatability_name(d.policy.repeatability)) + json_key(
        false,
        "issuance_mode"@,
    ) + json_str(issuance_mode_name(d.policy.issuance_mode)) + json_key(
        false,
        "accomplishment"@,
    ) + accomplishment_json(d) + seq![CLOSE_BRACE]
}

fn visibility_name_exec(v: AchievementVisibility) -> (r: &'static str)
    ensures
        r@ == visibility_name(v),
{
    match v {
        AchievementVisibility::Private => "private",
        AchievementVisibility::PublicProof => "public_proof",
    }
}

fn repeatability_name_exec(r: AchievementRepeatability) -> (s: &'static str)
    ensures
        s@ == repeatability_name(r),
{
    match r {
        AchievementRepeatability::OncePerPlayer => "once_per_player",
        AchievementRepeatability::Repeatable => "repeatable",
    }
}

fn issuance_mode_name_exec(m: AchievementIssuanceMode) -> (r: &'static str)
    ensures
        r@ == issuance_mode_name(m),
{
    match m {
        AchievementIssuanceMode::DirectAwardOnly => "direct_award_only",
        AchievementIssuanceMode::ClaimReviewOnly => "claim_review_only",
        AchievementIssuanceMode::DirectAwardOrClaimReview => "direct_award_or_claim_review",
    }
}

fn write_accomplishment_json(out: &mut Vec<u8>, d: &AchievementDefinition)
    ensures
        final(out)@ == old(out)@ + accomplishment_json(d@),
{
    let a = &d.accomplishment;
    write_json_key(out, true, "summary");
    write_json_str(out, a.summary.as_str());
    write_json_key(out, false, "event_key");
    write_json_opt_str(out, &a.event_key);
    write_json_key(out, false, "threshold");
    write_json_opt_decimal(out, a.threshold);
    write_json_key(out, false, "requires_evidence");
    write_json_bool(out, a.requires_evidence);
    write_json_close(out);
    assert(out@ =~= old(out)@ + accomplishment_json(d@));
}

/// The JSON text of `definition`.
pub fn definition_json_bytes(definition: &AchievementDefinition) -> (r: Vec<u8>)
    ensures
        r@ == definition_json(definition@),
{
    let d = definition;
    let mut out: Vec<u8> = Vec::new();
    write_json_key(&mut out, true, "developer");
    write_json_str(&mut out, d.identity.developer.as_str());
    write_json_key(&mut out, false, "game");
    write_json_str(&mut out, d.identity.game.as_str());
    write_json_key(&mut out, false, "achievement_id");
    write_json_str(&mut out, d.identity.achievement_id.as_str());
    write_json_key(&mut out, false, "version");
    write_json_decimal(&mut out, d.identity.version as u64);
    write_json_key(&mut out, false, "name");
    write_json_str(&mut out, d.presentation.name.as_str());
    write_json_key(&mut out, false, "description");
    write_json_str(&mut out, d.presentation.description.as_str());
    write_json_key(&mut out, false, "category");
    write_json_str(&mut out, d.presentation.category.as_str());
    write_json_key(&mut out, false, "visibility");
    write_json_str(&mut out, visibility_name_exec(d.policy.visibility));
    write_json_key(&mut out, false, "repeatability");
    write_json_str(&mut out, repeatability_name_exec(d.policy.repeatability));
    write_json_key(&mut out, false, "issuance_mode");
    write_json_str(&mut out, issuance_mode_name_exec(d.policy.issuance_mode));
    write_json_key(&mut out, false, "accomplishment");
    write_accomplishment_json(&mut out, d);
    write_json_close(&mut out);
    reveal(definition_json);
    assert(out@ =~= definition_json(d@));
    out
}


/// The JSON text of award metadata: category, visibility, repeatability
/// and issuance mode, in that order.
pub open spec fn award_metadata_text(
    category: Seq<char>,
    visibility: AchievementVisibility,
    repeatability: AchievementRepeatability,
    issuance_mode: AchievementIssuanceMode,
) -> Seq<char> {
    "{\"category\":"@ + json_text_str(category) + ",\"visibility\":"@ + json_text_str(
        visibility_name(visibility),
    ) + ",\"repeatability\":"@ + json_text_str(repeatability_name(repeatability))
        + ",\"issuance_mode\":"@ + json_text_str(issuance_mode_name(issuance_mode)) + "}"@
}

/// The JSON text of `metadata`.
pub fn award_metadata_json(metadata: &AchievementAwardMetadata) -> (r: String)
    ensures
        r@ == award_metadata_text(
            metadata.category@,
            metadata.visibility,
            metadata.repeatability,
            metadata.issuance_mode,
        ),
{
    let mut out = String::new();
    out.append("{\"category\":");
    push_json_text_str(&mut out, metadata.category.as_str());
    out.append(",\"visibility\":");
    push_json_text_str(&mut out, visibility_name_exec(metadata.visibility));
    out.append(",\"repeatability\":");
    push_json_text_str(&mut out, repeatability_name_exec(metadata.repeatability));
    out.append(",\"issuance_mode\":");
    push_json_text_str(&mut out, issuance_mode_name_exec(metadata.issuance_mode));
    out.append("}");
    assert(out@ =~= award_metadata_text(
        metadata.category@,
        metadata.visibility,
        metadata.repeatability,
        metadata.issuance_mode,
    ));
    out
}

} // verus!
